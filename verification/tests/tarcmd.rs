use vagga_core::steps::Build;
use vagga_core::steps::Container;
use vagga_core::steps::LddCopy;
use vagga_core::steps::Source;
use vagga_core::steps::SubConfig;
use vagga_core::tarcmd::Tar;
use vagga_core::tarcmd::get_entry_file_path;

#[test]
fn an_entry_inside_the_subdir_lands_under_the_target() {
    let r = get_entry_file_path("pkg/bin/ls", "/tmp/x", Some("pkg"), &vec![], &vec![]).unwrap();
    assert_eq!(r, (Some("/tmp/x/bin/ls".to_string()), true));
}

#[test]
fn an_entry_outside_the_subdir_is_skipped() {
    let r = get_entry_file_path("other/file", "/tmp/x", Some("pkg"), &vec![], &vec![]).unwrap();
    assert_eq!(r, (None, false));
}

#[test]
fn without_a_subdir_the_entry_keeps_its_path() {
    let r = get_entry_file_path("a/b", "/t", None, &vec![], &vec![]).unwrap();
    assert_eq!(r, (Some("/t/a/b".to_string()), false));
}

#[test]
fn prefix_matching_is_by_component() {
    // "pk" is not a component prefix of "pkg/bin".
    let r = get_entry_file_path("pkg/bin", "/t", Some("pk"), &vec![], &vec![]).unwrap();
    assert_eq!(r, (None, false));
}

#[test]
fn an_excluded_entry_is_skipped() {
    let r = get_entry_file_path("pkg/doc/README", "/t", Some("pkg"), &vec![], &vec!["pkg/doc".to_string()]).unwrap();
    assert_eq!(r, (None, false));
}

#[test]
fn an_entry_outside_every_include_prefix_is_skipped() {
    let r = get_entry_file_path("other/f", "/t", None, &vec!["pkg".to_string()], &vec![]).unwrap();
    assert_eq!(r, (None, false));
}

#[test]
fn build_steps_declare_their_container_dependencies() {
    let c = Container("base".to_string());
    assert_eq!(c.is_dependent_on(), Some("base"));
    let b = Build {
        container: "tools".to_string(),
        source: "/".to_string(),
        path: None,
        temporary_mount: None,
        content_hash: false,
    };
    assert_eq!(b.is_dependent_on(), Some("tools"));
    let s = SubConfig {
        source: Source::Container("sub".to_string()),
        path: "vagga.yaml".to_string(),
        container: "inner".to_string(),
        cache: None,
    };
    assert_eq!(s.is_dependent_on(), Some("sub"));
    let s2 = SubConfig {
        source: Source::Directory,
        path: "vagga.yaml".to_string(),
        container: "inner".to_string(),
        cache: None,
    };
    assert_eq!(s2.is_dependent_on(), None);
    let l = LddCopy { libraries_from_container: "libs".to_string(), binaries: vec![] };
    assert_eq!(l.is_dependent_on(), Some("libs"));
    let t = Tar {
        url: "http://example.com/a.tar".to_string(),
        sha256: None,
        path: "/".to_string(),
        subdir: ".".to_string(),
    };
    assert_eq!(t.is_dependent_on(), None);
}
