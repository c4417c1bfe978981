use vagga_core::FsNode;
use vagga_core::FsTree;
use vagga_core::Ldd;
use vagga_core::LddError;

fn section_header(name: u32, shtype: u32, off: u64, size: u64, link: u32, entsize: u64) -> Vec<u8> {
    let mut s = Vec::new();
    s.extend_from_slice(&name.to_le_bytes());
    s.extend_from_slice(&shtype.to_le_bytes());
    s.extend_from_slice(&0u64.to_le_bytes());
    s.extend_from_slice(&0u64.to_le_bytes());
    s.extend_from_slice(&off.to_le_bytes());
    s.extend_from_slice(&size.to_le_bytes());
    s.extend_from_slice(&link.to_le_bytes());
    s.extend_from_slice(&0u32.to_le_bytes());
    s.extend_from_slice(&1u64.to_le_bytes());
    s.extend_from_slice(&entsize.to_le_bytes());
    s
}

/// A minimal 64-bit little-endian ELF image with one dynamic section whose
/// entries are the given (tag, value) pairs and whose string table is
/// `dynstr`.
fn build_elf(entries: &[(u64, u64)], dynstr: &[u8]) -> Vec<u8> {
    let dyn_off = 64u64;
    let dyn_size = (entries.len() * 16) as u64;
    let str_off = dyn_off + dyn_size;
    let str_size = dynstr.len() as u64;
    let shstr_off = str_off + str_size;
    let shoff = shstr_off + 1;
    let mut b = Vec::new();
    b.extend_from_slice(&[0x7f, b'E', b'L', b'F', 2, 1, 1, 0, 0, 0, 0, 0, 0, 0, 0, 0]);
    b.extend_from_slice(&2u16.to_le_bytes());
    b.extend_from_slice(&62u16.to_le_bytes());
    b.extend_from_slice(&1u32.to_le_bytes());
    b.extend_from_slice(&0u64.to_le_bytes());
    b.extend_from_slice(&0u64.to_le_bytes());
    b.extend_from_slice(&shoff.to_le_bytes());
    b.extend_from_slice(&0u32.to_le_bytes());
    b.extend_from_slice(&64u16.to_le_bytes());
    b.extend_from_slice(&0u16.to_le_bytes());
    b.extend_from_slice(&0u16.to_le_bytes());
    b.extend_from_slice(&64u16.to_le_bytes());
    b.extend_from_slice(&4u16.to_le_bytes());
    b.extend_from_slice(&3u16.to_le_bytes());
    assert_eq!(b.len(), 64);
    for (t, v) in entries {
        b.extend_from_slice(&t.to_le_bytes());
        b.extend_from_slice(&v.to_le_bytes());
    }
    b.extend_from_slice(dynstr);
    b.push(0);
    b.extend(section_header(0, 0, 0, 0, 0, 0));
    b.extend(section_header(0, 6, dyn_off, dyn_size, 2, 16));
    b.extend(section_header(0, 3, str_off, str_size, 0, 0));
    b.extend(section_header(0, 3, shstr_off, 1, 0, 0));
    b
}

const DT_NEEDED: u64 = 1;
const DT_RPATH: u64 = 15;

/// dynstr: \0 libfoo.so.1 \0 $ORIGIN/../lib \0
fn app_elf() -> Vec<u8> {
    let dynstr = b"\0libfoo.so.1\0$ORIGIN/../lib\0";
    build_elf(&[(DT_RPATH, 13), (DT_NEEDED, 1), (0, 0)], dynstr)
}

fn leaf_elf() -> Vec<u8> {
    build_elf(&[(0, 0)], b"\0")
}

#[test]
fn origin_relative_rpath_resolves() {
    let mut fs = FsTree::new();
    fs.add("/usr/bin/app".to_string(), FsNode::File(app_elf()));
    fs.add("/usr/lib/libfoo.so.1".to_string(), FsNode::File(leaf_elf()));
    let ldd = Ldd::new("/sysroot".to_string(), fs).unwrap();
    let deps = ldd.deps("/usr/bin/app").unwrap();
    assert_eq!(deps, vec!["/usr/lib/libfoo.so.1".to_string()]);
}

#[test]
fn a_missing_dependency_fails_with_its_soname() {
    let mut fs = FsTree::new();
    fs.add("/usr/bin/app".to_string(), FsNode::File(app_elf()));
    let ldd = Ldd::new("/sysroot".to_string(), fs).unwrap();
    let e = ldd.deps("/usr/bin/app").unwrap_err();
    assert!(matches!(e, LddError::NotFound(ref s) if s == "libfoo.so.1"));
}

#[test]
fn resolving_twice_yields_identical_results() {
    let mut fs = FsTree::new();
    fs.add("/usr/bin/app".to_string(), FsNode::File(app_elf()));
    fs.add("/usr/lib/libfoo.so.1".to_string(), FsNode::File(leaf_elf()));
    let ldd = Ldd::new("/sysroot".to_string(), fs).unwrap();
    let first = ldd.deps("/usr/bin/app").unwrap();
    let second = ldd.deps("/usr/bin/app").unwrap();
    assert_eq!(first, second);
}

#[test]
fn dependencies_of_dependencies_are_walked() {
    // libfoo itself needs libbar, found in the default /lib directory.
    let dynstr = b"\0libbar.so.2\0";
    let libfoo = build_elf(&[(DT_NEEDED, 1), (0, 0)], dynstr);
    let mut fs = FsTree::new();
    fs.add("/usr/bin/app".to_string(), FsNode::File(app_elf()));
    fs.add("/usr/lib/libfoo.so.1".to_string(), FsNode::File(libfoo));
    fs.add("/lib/libbar.so.2".to_string(), FsNode::File(leaf_elf()));
    let ldd = Ldd::new("/sysroot".to_string(), fs).unwrap();
    let deps = ldd.deps("/usr/bin/app").unwrap();
    assert_eq!(
        deps,
        vec!["/lib/libbar.so.2".to_string(), "/usr/lib/libfoo.so.1".to_string()]
    );
}

#[test]
fn a_dependency_reached_through_a_symlink_keeps_its_search_path_name() {
    let mut fs = FsTree::new();
    fs.add("/usr/bin/app".to_string(), FsNode::File(app_elf()));
    fs.add(
        "/usr/lib/libfoo.so.1".to_string(),
        FsNode::Symlink("libfoo.so.1.0".to_string()),
    );
    fs.add("/usr/lib/libfoo.so.1.0".to_string(), FsNode::File(leaf_elf()));
    let ldd = Ldd::new("/sysroot".to_string(), fs).unwrap();
    let deps = ldd.deps("/usr/bin/app").unwrap();
    assert_eq!(deps, vec!["/usr/lib/libfoo.so.1".to_string()]);
}

#[test]
fn a_garbage_binary_is_a_format_error() {
    let mut fs = FsTree::new();
    fs.add("/usr/bin/app".to_string(), FsNode::File(vec![1, 2, 3, 4]));
    let ldd = Ldd::new("/sysroot".to_string(), fs).unwrap();
    let e = ldd.deps("/usr/bin/app").unwrap_err();
    assert!(matches!(e, LddError::Elf(ref p) if p == "/sysroot/usr/bin/app"));
}

#[test]
fn a_missing_binary_is_an_io_error_on_the_host_path() {
    let fs = FsTree::new();
    let ldd = Ldd::new("/sysroot".to_string(), fs).unwrap();
    let e = ldd.deps("/usr/bin/app").unwrap_err();
    assert!(matches!(e, LddError::Io(ref p) if p == "/sysroot/usr/bin/app"));
    match ldd.deps("/usr/bin/app") {
        Err(err) => assert_eq!(err.describe(), "cannot access: /sysroot/usr/bin/app"),
        Ok(_) => panic!("expected an error"),
    }
}

#[test]
fn conf_directories_are_searched_before_defaults() {
    // The same soname sits in /opt/lib (from ld.so.conf) and /lib (default):
    // the configured directory wins.
    let dynstr = b"\0libz.so.1\0";
    let app = build_elf(&[(DT_NEEDED, 1), (0, 0)], dynstr);
    let mut fs = FsTree::new();
    fs.add("/etc/ld.so.conf".to_string(), FsNode::File(b"/opt/lib\n".to_vec()));
    fs.add("/bin/app".to_string(), FsNode::File(app));
    fs.add("/opt/lib/libz.so.1".to_string(), FsNode::File(leaf_elf()));
    fs.add("/lib/libz.so.1".to_string(), FsNode::File(leaf_elf()));
    let ldd = Ldd::new("/sysroot".to_string(), fs).unwrap();
    let deps = ldd.deps("/bin/app").unwrap();
    assert_eq!(deps, vec!["/opt/lib/libz.so.1".to_string()]);
}

#[test]
fn two_resolvers_over_equal_snapshots_agree() {
    let build = || {
        let mut fs = FsTree::new();
        fs.add("/usr/bin/app".to_string(), FsNode::File(app_elf()));
        fs.add("/usr/lib/libfoo.so.1".to_string(), FsNode::File(leaf_elf()));
        fs
    };
    let a = Ldd::new("/sysroot".to_string(), build()).unwrap();
    let b = Ldd::new("/sysroot".to_string(), build()).unwrap();
    assert_eq!(a.deps("/usr/bin/app").unwrap(), b.deps("/usr/bin/app").unwrap());
}

#[test]
fn a_section_name_past_the_string_table_is_a_format_error() {
    // A section header whose name offset lies far beyond the section-name
    // string table is rejected as malformed instead of crashing the parse.
    let mut bytes = app_elf();
    let shoff = bytes.len() - 4 * 64;
    bytes[shoff..shoff + 4].copy_from_slice(&0xFFFF_FFFFu32.to_le_bytes());
    let mut fs = FsTree::new();
    fs.add("/usr/bin/app".to_string(), FsNode::File(bytes));
    let ldd = Ldd::new("/sysroot".to_string(), fs).unwrap();
    let e = ldd.deps("/usr/bin/app").unwrap_err();
    assert!(matches!(e, LddError::Elf(ref p) if p == "/sysroot/usr/bin/app"));
}

#[test]
fn a_section_body_past_the_image_is_a_format_error() {
    // A section whose recorded size reaches far beyond the image is
    // rejected as malformed instead of crashing the parse.
    let mut bytes = app_elf();
    let shoff = bytes.len() - 4 * 64;
    let dyn_size_field = shoff + 64 + 32;
    bytes[dyn_size_field..dyn_size_field + 8].copy_from_slice(&u64::MAX.to_le_bytes());
    let mut fs = FsTree::new();
    fs.add("/usr/bin/app".to_string(), FsNode::File(bytes));
    let ldd = Ldd::new("/sysroot".to_string(), fs).unwrap();
    let e = ldd.deps("/usr/bin/app").unwrap_err();
    assert!(matches!(e, LddError::Elf(ref p) if p == "/sysroot/usr/bin/app"));
}
