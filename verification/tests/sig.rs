use vagga_core::sig::SigEntry;
use vagga_core::sig::check_signature;

fn entry(path: &str, exe: bool, size: u64, hashes: &[u8]) -> SigEntry {
    SigEntry { path: path.to_string(), exe, size, hashes: hashes.to_vec() }
}

#[test]
fn equal_indexes_yield_no_diff() {
    let a = vec![entry("/bin/sh", true, 100, &[1, 2]), entry("/etc/hosts", false, 10, &[3])];
    let b = vec![entry("/bin/sh", true, 100, &[1, 2]), entry("/etc/hosts", false, 10, &[3])];
    assert!(check_signature(&a, &b).is_none());
}

#[test]
fn a_gone_path_is_missing() {
    let a = vec![entry("/bin/sh", true, 100, &[1]), entry("/etc/hosts", false, 10, &[3])];
    let b = vec![entry("/bin/sh", true, 100, &[1])];
    let d = check_signature(&a, &b).unwrap();
    assert_eq!(d.missing_paths, vec!["/etc/hosts".to_string()]);
    assert!(d.extra_paths.is_empty());
    assert!(d.corrupted_paths.is_empty());
}

#[test]
fn an_unexpected_path_is_extra() {
    let a = vec![entry("/bin/sh", true, 100, &[1])];
    let b = vec![entry("/bin/sh", true, 100, &[1]), entry("/tmp/junk", false, 5, &[9])];
    let d = check_signature(&a, &b).unwrap();
    assert!(d.missing_paths.is_empty());
    assert_eq!(d.extra_paths, vec!["/tmp/junk".to_string()]);
    assert!(d.corrupted_paths.is_empty());
}

#[test]
fn a_changed_entry_is_corrupted() {
    let a = vec![entry("/bin/sh", true, 100, &[1, 2])];
    let b = vec![entry("/bin/sh", true, 101, &[1, 2])];
    let d = check_signature(&a, &b).unwrap();
    assert!(d.missing_paths.is_empty());
    assert!(d.extra_paths.is_empty());
    assert_eq!(d.corrupted_paths, vec!["/bin/sh".to_string()]);
}
