use vagga_core::FsNode;
use vagga_core::FsTree;
use vagga_core::LddError;
use vagga_core::resolve_link;

fn tree(entries: Vec<(&str, FsNode)>) -> FsTree {
    let mut fs = FsTree::new();
    for (p, n) in entries {
        fs.add(p.to_string(), n);
    }
    fs
}

#[test]
fn a_plain_file_resolves_to_itself() {
    let fs = tree(vec![("/usr/bin/sh", FsNode::File(vec![1, 2, 3]))]);
    let (real, chain) = resolve_link("/sys", &fs, "/usr/bin/sh").unwrap();
    assert_eq!(real, "/sys/usr/bin/sh");
    assert_eq!(chain, Vec::<String>::new());
}

#[test]
fn a_relative_link_is_taken_from_its_own_directory() {
    let fs = tree(vec![
        ("/bin/sh", FsNode::Symlink("dash".to_string())),
        ("/bin/dash", FsNode::File(vec![0])),
    ]);
    let (real, chain) = resolve_link("/sys", &fs, "/bin/sh").unwrap();
    assert_eq!(real, "/sys/bin/dash");
    assert_eq!(chain, vec!["/bin/dash".to_string()]);
}

#[test]
fn an_absolute_link_stands_alone() {
    let fs = tree(vec![
        ("/bin/sh", FsNode::Symlink("/usr/bin/dash".to_string())),
        ("/usr/bin/dash", FsNode::File(vec![0])),
    ]);
    let (real, _) = resolve_link("/sys", &fs, "/bin/sh").unwrap();
    assert_eq!(real, "/sys/usr/bin/dash");
}

#[test]
fn a_missing_entry_is_an_io_error_on_the_host_path() {
    let fs = tree(vec![]);
    let e = resolve_link("/sys", &fs, "/nowhere").unwrap_err();
    assert!(matches!(e, LddError::Io(ref p) if p == "/sys/nowhere"));
}

#[test]
fn a_link_cycle_fails_with_a_recursive_link_error() {
    let fs = tree(vec![
        ("/a", FsNode::Symlink("b".to_string())),
        ("/b", FsNode::Symlink("a".to_string())),
    ]);
    let e = resolve_link("/sys", &fs, "/a").unwrap_err();
    assert!(matches!(e, LddError::RecursiveLink(ref p) if p == "/a"));
}

#[test]
fn a_link_to_itself_fails_immediately() {
    let fs = tree(vec![("/self", FsNode::Symlink("/self".to_string()))]);
    let e = resolve_link("/sys", &fs, "/self").unwrap_err();
    assert!(matches!(e, LddError::RecursiveLink(ref p) if p == "/self"));
}
