use doc_server::{get_toolchain_doc_path, index_file_path, push_path, project_route};

#[test]
fn push_adds_a_separator() {
    assert_eq!(push_path(&"/home/u".to_string(), "proj"), "/home/u/proj");
}

#[test]
fn push_keeps_an_existing_separator() {
    assert_eq!(push_path(&"/home/u/".to_string(), "proj"), "/home/u/proj");
}

#[test]
fn push_onto_empty_path() {
    assert_eq!(push_path(&String::new(), "proj"), "proj");
}

#[test]
fn push_absolute_replaces() {
    assert_eq!(push_path(&"/home/u".to_string(), "/opt/x"), "/opt/x");
}

#[test]
fn push_matches_pathbuf() {
    for (base, seg) in [("a", "b"), ("a/", "b/c"), ("", "x"), ("/", "y"), ("a", "/z"), ("a", "")] {
        let mut expected = std::path::PathBuf::from(base);
        expected.push(seg);
        assert_eq!(push_path(&base.to_string(), seg), expected.to_string_lossy());
    }
}

#[test]
fn toolchain_doc_path_from_environment_values() {
    assert_eq!(
        get_toolchain_doc_path(Some("/r".to_string()), Some("stable-x86_64".to_string())),
        Some("/r/toolchains/stable-x86_64/share/doc/rust/html".to_string())
    );
}

#[test]
fn toolchain_doc_path_needs_both_values() {
    assert_eq!(get_toolchain_doc_path(None, Some("stable".to_string())), None);
    assert_eq!(get_toolchain_doc_path(Some("/r".to_string()), None), None);
}

#[test]
fn index_file_lies_in_the_cache_directory() {
    assert_eq!(index_file_path(&"/home/u/.cache/doc_server".to_string()), "/home/u/.cache/doc_server/index.html");
}

#[test]
fn project_route_is_under_the_doc_route() {
    assert_eq!(project_route("/doc", "proj"), "/doc/proj");
}
