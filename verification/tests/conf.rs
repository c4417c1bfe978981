use vagga_core::FsNode;
use vagga_core::FsTree;
use vagga_core::LddError;
use vagga_core::conf::parse_ld_so_conf;

#[test]
fn directories_comments_and_blank_lines() {
    let mut fs = FsTree::new();
    fs.add(
        "/etc/ld.so.conf".to_string(),
        FsNode::File(b"# leading comment\n\n/opt/lib\n  /spaced/lib  \n".to_vec()),
    );
    let dirs = parse_ld_so_conf("/sys", &fs, "/etc/ld.so.conf").unwrap();
    assert_eq!(dirs, vec!["/opt/lib".to_string(), "/spaced/lib".to_string()]);
}

#[test]
fn includes_pull_matching_files_in_sorted_order() {
    let mut fs = FsTree::new();
    fs.add(
        "/etc/ld.so.conf".to_string(),
        FsNode::File(b"include /etc/ld.so.conf.d/*.conf\n/opt/lib\n".to_vec()),
    );
    fs.add(
        "/etc/ld.so.conf.d/b.conf".to_string(),
        FsNode::File(b"/b1\n".to_vec()),
    );
    fs.add(
        "/etc/ld.so.conf.d/a.conf".to_string(),
        FsNode::File(b"/a1\n# note\n/a2\n".to_vec()),
    );
    fs.add(
        "/etc/ld.so.conf.d/ignored.txt".to_string(),
        FsNode::File(b"/never\n".to_vec()),
    );
    let dirs = parse_ld_so_conf("/sys", &fs, "/etc/ld.so.conf").unwrap();
    assert_eq!(
        dirs,
        vec![
            "/a1".to_string(),
            "/a2".to_string(),
            "/b1".to_string(),
            "/opt/lib".to_string(),
        ]
    );
}

#[test]
fn an_include_cycle_terminates() {
    let mut fs = FsTree::new();
    fs.add(
        "/etc/ld.so.conf".to_string(),
        FsNode::File(b"include /etc/ld.so.conf\n/once\n".to_vec()),
    );
    let dirs = parse_ld_so_conf("/sys", &fs, "/etc/ld.so.conf").unwrap();
    assert_eq!(dirs, vec!["/once".to_string()]);
}

#[test]
fn the_configuration_file_may_be_a_symlink() {
    let mut fs = FsTree::new();
    fs.add(
        "/etc/ld.so.conf".to_string(),
        FsNode::Symlink("real.conf".to_string()),
    );
    fs.add("/etc/real.conf".to_string(), FsNode::File(b"/from/link\n".to_vec()));
    let dirs = parse_ld_so_conf("/sys", &fs, "/etc/ld.so.conf").unwrap();
    assert_eq!(dirs, vec!["/from/link".to_string()]);
}

#[test]
fn a_missing_configuration_file_is_an_io_error() {
    let fs = FsTree::new();
    let e = parse_ld_so_conf("/sys", &fs, "/etc/ld.so.conf").unwrap_err();
    assert!(matches!(e, LddError::Io(ref p) if p == "/sys/etc/ld.so.conf"));
}

#[test]
fn unicode_whitespace_is_trimmed_and_detected() {
    // No-break-space padding is trimmed from a directory line, and a line
    // whose only whitespace is an em space is a directive, so it is ignored.
    let mut content: Vec<u8> = Vec::new();
    content.extend_from_slice(&[0xC2, 0xA0]);
    content.extend_from_slice(b"/pad");
    content.extend_from_slice(&[0xC2, 0xA0]);
    content.push(b'\n');
    content.extend_from_slice(b"/a");
    content.extend_from_slice(&[0xE2, 0x80, 0x83]);
    content.extend_from_slice(b"b\n");
    let mut fs = FsTree::new();
    fs.add("/etc/ld.so.conf".to_string(), FsNode::File(content));
    let dirs = parse_ld_so_conf("/sys", &fs, "/etc/ld.so.conf").unwrap();
    assert_eq!(dirs, vec!["/pad".to_string()]);
}
