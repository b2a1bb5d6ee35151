use std::path::{Component, Path};

use doc_server::{crates_in, doc_project, is_doc_dir, sort_projects, CrateDirEntry, DocProject, PathPart};

/// The components of a path, as the program hands them to the library.
fn parts(path: &str) -> Vec<PathPart> {
    Path::new(path)
        .components()
        .map(|c| match c {
            Component::Prefix(_) => PathPart::Prefix,
            Component::RootDir => PathPart::RootDir,
            Component::CurDir => PathPart::CurDir,
            Component::ParentDir => PathPart::ParentDir,
            Component::Normal(n) => PathPart::Normal(n.to_str().map(String::from)),
        })
        .collect()
}

fn project_at(path: &str, entries: Option<Vec<CrateDirEntry>>) -> Option<DocProject> {
    doc_project(&path.to_string(), &parts(path), entries)
}

fn entry(name: &str, is_dir: bool, has_index: bool) -> CrateDirEntry {
    CrateDirEntry { name: Some(name.to_string()), is_dir, has_index }
}

fn project(name: &str) -> DocProject {
    DocProject { name: name.to_string(), doc_path: format!("/h/{}/target/doc", name), crates: vec![] }
}

#[test]
fn doc_dir_is_a_directory_ending_in_target_doc() {
    assert!(is_doc_dir(&parts("/h/proj/target/doc"), true));
    assert!(is_doc_dir(&parts("/h/proj/target/doc/"), true));
    assert!(is_doc_dir(&parts("/h/proj/target/./doc"), true));
    assert!(!is_doc_dir(&parts("/h/proj/target/doc"), false));
    assert!(!is_doc_dir(&parts("/h/proj/target/docs"), true));
    assert!(!is_doc_dir(&parts("/h/proj/mytarget/doc"), true));
}

#[test]
fn crates_are_directories_with_an_index_sorted_by_name() {
    let entries = vec![
        entry("zeta", true, true),
        entry("static.files", true, false),
        entry("alpha", true, true),
        entry("search-index.js", false, false),
        CrateDirEntry { name: None, is_dir: true, has_index: true },
        entry("Mid", true, true),
    ];
    assert_eq!(crates_in(&entries), vec!["Mid".to_string(), "alpha".to_string(), "zeta".to_string()]);
}

#[test]
fn project_is_named_after_the_directory_holding_target() {
    let p = project_at("/h/my_proj/target/doc", Some(vec![entry("b", true, true), entry("a", true, true)]))
        .expect("a named project");
    assert_eq!(p.name, "my_proj");
    assert_eq!(p.doc_path, "/h/my_proj/target/doc");
    assert_eq!(p.crates, vec!["a".to_string(), "b".to_string()]);
}

#[test]
fn unreadable_doc_dir_gives_no_crates() {
    let p = project_at("/h/p/target/doc", None).expect("a named project");
    assert!(p.crates.is_empty());
}

#[test]
fn doc_dir_without_project_directory_gives_nothing() {
    assert!(project_at("target/doc", None).is_none());
    assert!(project_at("/target/doc", None).is_none());
}

#[test]
fn path_outside_target_doc_gives_no_project() {
    assert!(project_at("/h/proj/target/debug", Some(vec![entry("a", true, true)])).is_none());
    assert!(project_at("/h/proj/doc", None).is_none());
}

#[test]
fn projects_sorted_by_name_ignoring_case() {
    let sorted = sort_projects(vec![project("Beta"), project("alpha"), project("Gamma"), project("delta")]);
    let names: Vec<&str> = sorted.iter().map(|p| p.name.as_str()).collect();
    assert_eq!(names, vec!["alpha", "Beta", "delta", "Gamma"]);
}

#[test]
fn projects_with_same_lowercase_name_keep_their_order() {
    let mut first = project("Tool");
    first.doc_path = "/one".to_string();
    let mut second = project("tool");
    second.doc_path = "/two".to_string();
    let sorted = sort_projects(vec![first, project("a"), second]);
    let paths: Vec<&str> = sorted.iter().map(|p| p.doc_path.as_str()).collect();
    assert_eq!(paths, vec!["/h/a/target/doc", "/one", "/two"]);
}

#[test]
fn listing_ignores_the_order_projects_were_met_in() {
    let names = ["delta", "Alpha", "charlie", "Bravo"];
    let once = sort_projects(names.iter().map(|n| project(n)).collect());
    let again = sort_projects(names.iter().rev().map(|n| project(n)).collect());
    let a: Vec<&str> = once.iter().map(|p| p.name.as_str()).collect();
    let b: Vec<&str> = again.iter().map(|p| p.name.as_str()).collect();
    assert_eq!(a, b);
    assert_eq!(a, vec!["Alpha", "Bravo", "charlie", "delta"]);
}

#[test]
fn project_name_that_is_not_unicode_gives_nothing() {
    let mut ps = parts("/h/x/target/doc");
    ps[2] = PathPart::Normal(None);
    assert!(doc_project(&"/h/\u{fffd}/target/doc".to_string(), &ps, None).is_none());
}

#[test]
fn project_below_a_name_that_is_not_unicode_is_kept() {
    let mut ps = parts("/h/x/proj/target/doc");
    ps[2] = PathPart::Normal(None);
    let p = doc_project(&"/h/\u{fffd}/proj/target/doc".to_string(), &ps, None).expect("a named project");
    assert_eq!(p.name, "proj");
}

#[test]
fn project_name_after_parent_component() {
    assert!(project_at("/h/../target/doc", None).is_none());
    assert_eq!(project_at("./p/target/doc", None).map(|p| p.name), Some("p".to_string()));
    assert!(project_at("./target/doc", None).is_none());
}

#[test]
fn doc_dir_test_and_project_name_agree_with_path() {
    for p in [
        "/h/proj/target/doc",
        "/h/proj/target/doc/",
        "proj//target///doc",
        "/h/./proj/target/doc",
        "../target/doc",
        "a/../target/doc",
        "/target/doc",
        "target/doc",
        "/h/proj/target/doc/x",
        "/",
        "",
        ".",
    ] {
        let path = Path::new(p);
        let want_dir = path.ends_with("target/doc");
        assert_eq!(is_doc_dir(&parts(p), true), want_dir, "{:?}", p);
        let want_name = path
            .parent()
            .and_then(|q| q.parent())
            .and_then(|q| q.file_name())
            .and_then(|n| n.to_str())
            .map(String::from);
        let got = project_at(p, None).map(|d| d.name);
        assert_eq!(got, if want_dir { want_name } else { None }, "{:?}", p);
    }
}
