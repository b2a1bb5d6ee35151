use doc_server::{DirEntryRead, IoFailure, SearchEvent, SearchStep, ToolchainSearch};

fn done(step: SearchStep) -> Result<String, String> {
    match step {
        SearchStep::Done(r) => r,
        _ => panic!("search not over"),
    }
}

#[test]
fn asks_rustup_first_and_takes_the_parent_of_its_answer() {
    let (mut s, step) = ToolchainSearch::new();
    assert!(matches!(step, SearchStep::RunRustupDocPath));
    let step = s.step(SearchEvent::RustupOutput(Some("  /r/toolchains/stable/share/doc/rust/html/index.html\n".to_string())));
    assert_eq!(done(step), Ok("/r/toolchains/stable/share/doc/rust/html".to_string()));
}

#[test]
fn falls_back_to_rustup_home_toolchains() {
    let (mut s, _) = ToolchainSearch::new();
    assert!(matches!(s.step(SearchEvent::RustupOutput(None)), SearchStep::ReadRustupHome));
    match s.step(SearchEvent::RustupHome(Some("/r".to_string()))) {
        SearchStep::CheckExists(p) => assert_eq!(p, "/r/toolchains"),
        _ => panic!("expected an existence check"),
    }
    match s.step(SearchEvent::Exists(true)) {
        SearchStep::ListDir(p) => assert_eq!(p, "/r/toolchains"),
        _ => panic!("expected a listing"),
    }
    let listing = vec![
        DirEntryRead::Failed(IoFailure { kind: std::io::ErrorKind::Other, message: "bad".to_string() }),
        DirEntryRead::Entry { name: "beta".to_string(), is_dir: true },
        DirEntryRead::Entry { name: "stable".to_string(), is_dir: true },
    ];
    match s.step(SearchEvent::Listing(Ok(listing))) {
        SearchStep::CheckExists(p) => assert_eq!(p, "/r/toolchains/beta/share/doc/rust/html"),
        _ => panic!("expected a candidate"),
    }
    match s.step(SearchEvent::Exists(false)) {
        SearchStep::CheckExists(p) => assert_eq!(p, "/r/toolchains/stable/share/doc/rust/html"),
        _ => panic!("expected the next candidate"),
    }
    assert_eq!(done(s.step(SearchEvent::Exists(true))), Ok("/r/toolchains/stable/share/doc/rust/html".to_string()));
}

#[test]
fn falls_back_to_home_rustup_and_then_fails() {
    let (mut s, _) = ToolchainSearch::new();
    s.step(SearchEvent::RustupOutput(None));
    assert!(matches!(s.step(SearchEvent::RustupHome(None)), SearchStep::FindHomeDir));
    match s.step(SearchEvent::HomeDir(Some("/home/u".to_string()))) {
        SearchStep::CheckExists(p) => assert_eq!(p, "/home/u/.rustup/toolchains"),
        _ => panic!("expected an existence check"),
    }
    assert_eq!(
        done(s.step(SearchEvent::Exists(false))),
        Err("all chained searches for toolchain doc path fail".to_string())
    );
}

#[test]
fn missing_rustup_home_dir_moves_to_the_home_directory() {
    let (mut s, _) = ToolchainSearch::new();
    s.step(SearchEvent::RustupOutput(None));
    s.step(SearchEvent::RustupHome(Some("/r".to_string())));
    assert!(matches!(s.step(SearchEvent::Exists(false)), SearchStep::FindHomeDir));
    assert_eq!(
        done(s.step(SearchEvent::HomeDir(None))),
        Err("all chained searches for toolchain doc path fail".to_string())
    );
}

#[test]
fn empty_toolchains_listing_gives_up_on_that_place() {
    let (mut s, _) = ToolchainSearch::new();
    s.step(SearchEvent::RustupOutput(None));
    s.step(SearchEvent::RustupHome(Some("/r".to_string())));
    s.step(SearchEvent::Exists(true));
    assert!(matches!(s.step(SearchEvent::Listing(Ok(vec![]))), SearchStep::FindHomeDir));
}

#[test]
fn rustup_answer_without_parent_goes_on_from_that_path() {
    let (mut s, _) = ToolchainSearch::new();
    assert!(matches!(s.step(SearchEvent::RustupOutput(Some("/".to_string()))), SearchStep::ReadRustupHome));
    match s.step(SearchEvent::RustupHome(Some("rel".to_string()))) {
        SearchStep::CheckExists(p) => assert_eq!(p, "/rel/toolchains"),
        _ => panic!("expected an existence check"),
    }
}

#[test]
fn unrelated_event_repeats_the_request() {
    let (mut s, _) = ToolchainSearch::new();
    assert!(matches!(s.step(SearchEvent::Exists(true)), SearchStep::RunRustupDocPath));
}

#[test]
fn finished_search_stays_finished() {
    let (mut s, _) = ToolchainSearch::new();
    s.step(SearchEvent::RustupOutput(Some("/a/b/index.html".to_string())));
    assert_eq!(done(s.step(SearchEvent::Exists(true))), Ok("/a/b".to_string()));
}
