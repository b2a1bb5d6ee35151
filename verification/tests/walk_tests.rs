use std::io::ErrorKind;

use doc_server::{find_doc_entries, DirEntryRead, DocSearch, DocTree, IoFailure};

fn dir(name: &str) -> DirEntryRead {
    DirEntryRead::Entry { name: name.to_string(), is_dir: true }
}

fn file(name: &str) -> DirEntryRead {
    DirEntryRead::Entry { name: name.to_string(), is_dir: false }
}

fn fail(kind: ErrorKind, message: &str) -> IoFailure {
    IoFailure { kind, message: message.to_string() }
}

/// A failure as kind and text, for comparing.
fn parts(r: Result<Vec<String>, IoFailure>) -> Result<Vec<String>, (ErrorKind, String)> {
    r.map_err(|f| (f.kind, f.message))
}

fn need(tree: &DocTree) -> Vec<usize> {
    match find_doc_entries(tree) {
        DocSearch::NeedListings(ids) => ids,
        DocSearch::Done(r) => panic!("search ended early: {:?}", parts(r)),
    }
}

fn done(tree: &DocTree) -> Result<Vec<String>, (ErrorKind, String)> {
    match find_doc_entries(tree) {
        DocSearch::Done(r) => parts(r),
        DocSearch::NeedListings(ids) => panic!("search still needs {:?}", ids),
    }
}

/// Answers every request of the search from a fixed listing function.
fn run(
    root: &str,
    listing: impl Fn(&str) -> Result<Vec<DirEntryRead>, IoFailure>,
) -> Result<Vec<String>, (ErrorKind, String)> {
    let mut tree = DocTree::new(root.to_string());
    loop {
        match find_doc_entries(&tree) {
            DocSearch::Done(r) => return parts(r),
            DocSearch::NeedListings(ids) => {
                for id in ids {
                    if tree.is_unread(id) {
                        let l = listing(tree.node_path(id).as_str());
                        tree.record(id, l);
                    }
                }
            }
        }
    }
}

fn home_listing(path: &str) -> Result<Vec<DirEntryRead>, IoFailure> {
    match path {
        "/h" => Ok(vec![dir("b_proj"), file("notes.txt"), dir("a_proj")]),
        "/h/b_proj" => Ok(vec![dir("src"), dir("target")]),
        "/h/b_proj/src" => Ok(vec![file("main.rs")]),
        "/h/b_proj/target" => Ok(vec![dir("debug"), dir("doc")]),
        "/h/a_proj" => Ok(vec![dir("target")]),
        "/h/a_proj/target" => Ok(vec![dir("debug")]),
        _ => Ok(vec![]),
    }
}

#[test]
fn fresh_search_asks_for_the_start_directory() {
    let tree = DocTree::new("/h".to_string());
    assert_eq!(need(&tree), vec![0]);
}

#[test]
fn finds_target_dirs_holding_doc_in_walk_order() {
    assert_eq!(run("/h", home_listing), Ok(vec!["/h/b_proj/target".to_string()]));
}

#[test]
fn target_without_doc_is_skipped_and_not_entered() {
    let r = run("/h", |p| match p {
        "/h" => Ok(vec![dir("target")]),
        "/h/target" => Ok(vec![file("doc"), dir("debug")]),
        "/h/target/debug" => panic!("a target directory is never searched below"),
        _ => Ok(vec![]),
    });
    assert_eq!(r, Ok(vec![]));
}

#[test]
fn unreadable_target_is_skipped() {
    let r = run("/h", |p| match p {
        "/h" => Ok(vec![dir("target"), dir("x")]),
        "/h/target" => Err(fail(ErrorKind::PermissionDenied, "denied")),
        "/h/x" => Ok(vec![dir("target")]),
        "/h/x/target" => Ok(vec![dir("doc")]),
        _ => Ok(vec![]),
    });
    assert_eq!(r, Ok(vec!["/h/x/target".to_string()]));
}

#[test]
fn unreadable_entry_in_target_means_no_docs() {
    let r = run("/h", |p| match p {
        "/h" => Ok(vec![dir("target")]),
        "/h/target" => Ok(vec![DirEntryRead::Failed(fail(ErrorKind::Other, "bad")), dir("doc")]),
        _ => Ok(vec![]),
    });
    assert_eq!(r, Ok(vec![]));
}

#[test]
fn unreadable_start_directory_fails() {
    let r = run("/h", |_| Err(fail(ErrorKind::NotFound, "No such file or directory (os error 2)")));
    assert_eq!(r, Err((ErrorKind::NotFound, "No such file or directory (os error 2)".to_string())));
}

#[test]
fn unreadable_subdirectory_fails_the_whole_search() {
    let r = run("/h", |p| match p {
        "/h" => Ok(vec![dir("a"), dir("b")]),
        "/h/a" => Err(fail(ErrorKind::PermissionDenied, "gone")),
        "/h/b" => Ok(vec![dir("target")]),
        "/h/b/target" => Ok(vec![dir("doc")]),
        _ => Ok(vec![]),
    });
    assert_eq!(r, Err((ErrorKind::PermissionDenied, "gone".to_string())));
}

#[test]
fn unreadable_entry_fails_the_whole_search() {
    let r = run("/h", |p| match p {
        "/h" => Ok(vec![DirEntryRead::Failed(fail(ErrorKind::Interrupted, "io")), dir("b")]),
        _ => Ok(vec![]),
    });
    assert_eq!(r, Err((ErrorKind::Interrupted, "io".to_string())));
}

#[test]
fn search_asks_for_all_directories_it_can_see() {
    let mut tree = DocTree::new("/h".to_string());
    tree.record(0, home_listing("/h"));
    assert_eq!(tree.len(), 3);
    assert_eq!(tree.node_path(1), "/h/b_proj");
    assert_eq!(tree.node_path(2), "/h/a_proj");
    assert_eq!(need(&tree), vec![1, 2]);
}

#[test]
fn ended_search_keeps_its_answer() {
    let mut tree = DocTree::new("/h".to_string());
    tree.record(0, Ok(vec![dir("a"), dir("b")]));
    tree.record(1, Err(fail(ErrorKind::NotFound, "gone")));
    assert_eq!(done(&tree), Err((ErrorKind::NotFound, "gone".to_string())));
    tree.record(2, Ok(vec![dir("target")]));
    assert_eq!(done(&tree), Err((ErrorKind::NotFound, "gone".to_string())));
}
