use vagga_core::normalize_path;
use vagga_core::with_sysroot;

#[test]
fn test_normalize_path() {
    assert_eq!(normalize_path(""), "");
    assert_eq!(normalize_path("/"), "/");
    assert_eq!(normalize_path("."), "");
    assert_eq!(normalize_path(".."), "");
    assert_eq!(normalize_path("/./.."), "/");
    assert_eq!(normalize_path("/a/../b/c/./../test.txt"), "/b/test.txt");
}

#[test]
fn normalize_keeps_plain_paths() {
    assert_eq!(normalize_path("/usr/lib"), "/usr/lib");
    assert_eq!(normalize_path("usr/lib/"), "usr/lib");
    assert_eq!(normalize_path("//usr//lib"), "/usr/lib");
    assert_eq!(normalize_path("/usr/bin/../lib"), "/usr/lib");
}

#[test]
fn with_sysroot_strips_the_leading_separator() {
    assert_eq!(with_sysroot("/sys", "/usr/lib"), "/sys/usr/lib");
    assert_eq!(with_sysroot("/sys", "usr/lib"), "/sys/usr/lib");
    assert_eq!(with_sysroot("/sys/", "/a"), "/sys/a");
    assert_eq!(with_sysroot("/sys", "/"), "/sys");
}
