use vagga_core::LPathSource;
use vagga_core::LPaths;

#[test]
fn test_lpaths() {
    let mut lpaths = LPaths::new();
    lpaths.add("/usr/local/lib".to_string(), LPathSource::LdLibraryPath);
    lpaths.add("/usr/local/lib".to_string(), LPathSource::DefaultPath);
    lpaths.add("/usr/lib".to_string(), LPathSource::DefaultPath);
    lpaths.add("/lib".to_string(), LPathSource::DefaultPath);
    lpaths.add("/opt/lib".to_string(), LPathSource::LdSoConf);
    lpaths.add("/lib".to_string(), LPathSource::RPath);
    assert_eq!(
        lpaths.into_vec(),
        vec![
            "/lib".to_string(),
            "/usr/local/lib".to_string(),
            "/opt/lib".to_string(),
            "/usr/lib".to_string(),
        ]
    );
}

#[test]
fn earlier_entries_of_one_source_outrank_later_ones() {
    let mut lpaths = LPaths::new();
    lpaths.add("/b".to_string(), LPathSource::RPath);
    lpaths.add("/a".to_string(), LPathSource::RPath);
    assert_eq!(lpaths.into_vec(), vec!["/b".to_string(), "/a".to_string()]);
}

#[test]
fn a_seen_path_is_never_demoted() {
    let mut lpaths = LPaths::new();
    lpaths.add("/x".to_string(), LPathSource::RPath);
    lpaths.add("/y".to_string(), LPathSource::DefaultPath);
    lpaths.add("/x".to_string(), LPathSource::DefaultPath);
    assert_eq!(lpaths.into_vec(), vec!["/x".to_string(), "/y".to_string()]);
}
