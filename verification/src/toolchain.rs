use vstd::prelude::*;
use crate::paths::{push_path, spec_push};
use crate::stdpath::{parent, path_parent};
use crate::text::{spec_trim, trim};
use crate::walk::{DirEntryRead, EntryReadView, FailureView, IoFailure};

verus! {

/// The error given when no place holds the toolchain's documentation.
pub const NOT_FOUND: &'static str = "all chained searches for toolchain doc path fail";

/// Where, below a toolchain's directory, its HTML documentation lies.
pub const TOOLCHAIN_DOC_DIR: &'static str = "share/doc/rust/html";

/// The documentation of the toolchain `toolchain` installed below the rustup
/// directory `rustup_home`, when both are known: `toolchains`, the toolchain,
/// and `share/doc/rust/html` pushed in turn onto `rustup_home`.
pub fn get_toolchain_doc_path(rustup_home: Option<String>, toolchain: Option<String>) -> (res: Option<String>)
    ensures
        res is Some <==> (rustup_home is Some && toolchain is Some),
        res matches Some(p) ==> p@ == spec_push(
            spec_push(spec_push(rustup_home->0@, "toolchains"@), toolchain->0@),
            TOOLCHAIN_DOC_DIR@,
        ),
{
    let home = match rustup_home {
        Some(h) => h,
        None => return None,
    };
    let toolchain = match toolchain {
        Some(t) => t,
        None => return None,
    };
    let path = push_path(&home, "toolchains");
    let path = push_path(&path, toolchain.as_str());
    Some(push_path(&path, TOOLCHAIN_DOC_DIR))
}

/// What the search for the toolchain's documentation asks to be done next.
pub enum SearchStep {
    /// Run `rustup doc --path` and report its output when it succeeds.
    RunRustupDocPath,
    /// Read the variable `RUSTUP_HOME` of the environment.
    ReadRustupHome,
    /// Find the user's home directory.
    FindHomeDir,
    /// Report whether this path exists.
    CheckExists(String),
    /// Read the entries of this directory.
    ListDir(String),
    /// The search is over: the documentation's directory, or why it failed.
    Done(Result<String, String>),
}

/// The model of a [`SearchStep`].
pub enum StepView {
    RunRustupDocPath,
    ReadRustupHome,
    FindHomeDir,
    CheckExists(Seq<char>),
    ListDir(Seq<char>),
    Done(Result<Seq<char>, Seq<char>>),
}

impl View for SearchStep {
    type V = StepView;

    open spec fn view(&self) -> StepView {
        match self {
            SearchStep::RunRustupDocPath => StepView::RunRustupDocPath,
            SearchStep::ReadRustupHome => StepView::ReadRustupHome,
            SearchStep::FindHomeDir => StepView::FindHomeDir,
            SearchStep::CheckExists(p) => StepView::CheckExists(p@),
            SearchStep::ListDir(p) => StepView::ListDir(p@),
            SearchStep::Done(Ok(p)) => StepView::Done(Ok(p@)),
            SearchStep::Done(Err(m)) => StepView::Done(Err(m@)),
        }
    }
}

/// What was found out by doing a [`SearchStep`].
pub enum SearchEvent {
    /// What `rustup doc --path` printed, when it ran and succeeded.
    RustupOutput(Option<String>),
    /// The value of `RUSTUP_HOME`, when it is set and valid Unicode.
    RustupHome(Option<String>),
    /// The user's home directory, when it is known.
    HomeDir(Option<String>),
    /// Whether the path asked about exists.
    Exists(bool),
    /// The entries of the directory asked about, or why it could not be read.
    Listing(Result<Vec<DirEntryRead>, IoFailure>),
}

/// The model of a [`SearchEvent`].
pub enum EventView {
    RustupOutput(Option<Seq<char>>),
    RustupHome(Option<Seq<char>>),
    HomeDir(Option<Seq<char>>),
    Exists(bool),
    Listing(Result<Seq<EntryReadView>, FailureView>),
}

/// The model of an optional string.
pub open spec fn opt_view(o: Option<String>) -> Option<Seq<char>> {
    match o {
        Some(s) => Some(s@),
        None => None,
    }
}

impl View for SearchEvent {
    type V = EventView;

    open spec fn view(&self) -> EventView {
        match self {
            SearchEvent::RustupOutput(o) => EventView::RustupOutput(opt_view(*o)),
            SearchEvent::RustupHome(o) => EventView::RustupHome(opt_view(*o)),
            SearchEvent::HomeDir(o) => EventView::HomeDir(opt_view(*o)),
            SearchEvent::Exists(b) => EventView::Exists(*b),
            SearchEvent::Listing(Ok(es)) => EventView::Listing(Ok(es@.map_values(|e: DirEntryRead| e@))),
            SearchEvent::Listing(Err(f)) => EventView::Listing(Err(f@)),
        }
    }
}

/// Where the search stands. The `toolchains` directory is looked at twice:
/// first below `RUSTUP_HOME`, then (`in_home`) below `~/.rustup`.
pub enum Stage {
    AwaitRustup,
    AwaitRustupHome,
    AwaitHomeDir,
    AwaitToolchains { in_home: bool },
    AwaitListing { in_home: bool },
    AwaitCandidate { in_home: bool },
    Finished(Result<String, String>),
}

/// The model of a [`Stage`].
pub enum StageView {
    AwaitRustup,
    AwaitRustupHome,
    AwaitHomeDir,
    AwaitToolchains { in_home: bool },
    AwaitListing { in_home: bool },
    AwaitCandidate { in_home: bool },
    Finished(Result<Seq<char>, Seq<char>>),
}

impl View for Stage {
    type V = StageView;

    open spec fn view(&self) -> StageView {
        match self {
            Stage::AwaitRustup => StageView::AwaitRustup,
            Stage::AwaitRustupHome => StageView::AwaitRustupHome,
            Stage::AwaitHomeDir => StageView::AwaitHomeDir,
            Stage::AwaitToolchains { in_home } => StageView::AwaitToolchains { in_home: *in_home },
            Stage::AwaitListing { in_home } => StageView::AwaitListing { in_home: *in_home },
            Stage::AwaitCandidate { in_home } => StageView::AwaitCandidate { in_home: *in_home },
            Stage::Finished(Ok(p)) => StageView::Finished(Ok(p@)),
            Stage::Finished(Err(m)) => StageView::Finished(Err(m@)),
        }
    }
}

/// The search for the directory of the Rust toolchain's own documentation.
/// It asks `rustup` first, then looks through the toolchains below
/// `RUSTUP_HOME`, then through those below `~/.rustup`.
pub struct ToolchainSearch {
    stage: Stage,
    path: String,
    candidates: Vec<String>,
    next: usize,
}

/// The model of a [`ToolchainSearch`]: its stage, the path it is building, the
/// candidate documentation directories of the toolchains listed, and the
/// number of candidates already ruled out.
pub struct SearchView {
    pub stage: StageView,
    pub path: Seq<char>,
    pub candidates: Seq<Seq<char>>,
    pub next: int,
}

impl View for ToolchainSearch {
    type V = SearchView;

    closed spec fn view(&self) -> SearchView {
        SearchView {
            stage: self.stage@,
            path: self.path@,
            candidates: self.candidates@.map_values(|c: String| c@),
            next: self.next as int,
        }
    }
}

/// The search as it starts: nothing built yet, `rustup` asked first.
pub open spec fn start_view() -> SearchView {
    SearchView { stage: StageView::AwaitRustup, path: Seq::empty(), candidates: Seq::empty(), next: 0 }
}

/// What a search in state `s` waits for.
pub open spec fn awaited(s: SearchView) -> StepView {
    match s.stage {
        StageView::AwaitRustup => StepView::RunRustupDocPath,
        StageView::AwaitRustupHome => StepView::ReadRustupHome,
        StageView::AwaitHomeDir => StepView::FindHomeDir,
        StageView::AwaitToolchains { .. } => StepView::CheckExists(s.path),
        StageView::AwaitListing { .. } => StepView::ListDir(s.path),
        StageView::AwaitCandidate { .. } => StepView::CheckExists(s.candidates[s.next]),
        StageView::Finished(r) => StepView::Done(r),
    }
}

/// The candidate documentation directories of the toolchains listed in
/// `entries`, read in the directory `dir`: each entry's path with
/// `share/doc/rust/html` pushed onto it. Entries that could not be read are
/// passed over.
pub open spec fn candidates_of(dir: Seq<char>, entries: Seq<EntryReadView>) -> Seq<Seq<char>>
    decreases entries.len(),
{
    if entries.len() == 0 {
        Seq::empty()
    } else {
        let rest = candidates_of(dir, entries.drop_last());
        match entries.last() {
            EntryReadView::Entry { name, .. } => rest.push(
                spec_push(spec_push(dir, name), TOOLCHAIN_DOC_DIR@),
            ),
            EntryReadView::Failed(_) => rest,
        }
    }
}

/// The state after giving up on the place being looked at: on to `~/.rustup`
/// after `RUSTUP_HOME`, else the search fails.
pub open spec fn give_up(s: SearchView, in_home: bool) -> SearchView {
    if in_home {
        SearchView { stage: StageView::Finished(Err(NOT_FOUND@)), ..s }
    } else {
        SearchView { stage: StageView::AwaitHomeDir, ..s }
    }
}

/// The state in which candidate `next` of `cands` is tried, or the place is
/// given up when none is left.
pub open spec fn try_candidate(s: SearchView, in_home: bool, cands: Seq<Seq<char>>, next: int) -> SearchView {
    if next < cands.len() {
        SearchView { stage: StageView::AwaitCandidate { in_home }, candidates: cands, next, ..s }
    } else {
        give_up(SearchView { candidates: cands, next, ..s }, in_home)
    }
}

/// The state that the search `s` moves to on the event `e`. An event that does
/// not answer what the search waits for leaves it as it is.
pub open spec fn next_state(s: SearchView, e: EventView) -> SearchView {
    match (s.stage, e) {
        (StageView::AwaitRustup, EventView::RustupOutput(out)) => match out {
            Some(o) => {
                let pushed = spec_push(s.path, spec_trim(o));
                match path_parent(pushed) {
                    Some(p) => SearchView { stage: StageView::Finished(Ok(p)), path: p, ..s },
                    None => SearchView { stage: StageView::AwaitRustupHome, path: pushed, ..s },
                }
            },
            None => SearchView { stage: StageView::AwaitRustupHome, ..s },
        },
        (StageView::AwaitRustupHome, EventView::RustupHome(home)) => match home {
            Some(h) => SearchView {
                stage: StageView::AwaitToolchains { in_home: false },
                path: spec_push(spec_push(s.path, h), "toolchains"@),
                ..s
            },
            None => SearchView { stage: StageView::AwaitHomeDir, ..s },
        },
        (StageView::AwaitHomeDir, EventView::HomeDir(home)) => match home {
            Some(h) => SearchView {
                stage: StageView::AwaitToolchains { in_home: true },
                path: spec_push(spec_push(spec_push(s.path, h), ".rustup"@), "toolchains"@),
                ..s
            },
            None => SearchView { stage: StageView::Finished(Err(NOT_FOUND@)), ..s },
        },
        (StageView::AwaitToolchains { in_home }, EventView::Exists(b)) => if b {
            SearchView { stage: StageView::AwaitListing { in_home }, ..s }
        } else {
            give_up(s, in_home)
        },
        (StageView::AwaitListing { in_home }, EventView::Listing(l)) => match l {
            Ok(es) => try_candidate(s, in_home, candidates_of(s.path, es), 0),
            Err(_) => give_up(s, in_home),
        },
        (StageView::AwaitCandidate { in_home }, EventView::Exists(b)) => if b {
            SearchView { stage: StageView::Finished(Ok(s.candidates[s.next])), ..s }
        } else {
            try_candidate(s, in_home, s.candidates, s.next + 1)
        },
        _ => s,
    }
}

/// The invariant of a search: a candidate is tried only while one is left.
pub open spec fn search_wf(s: SearchView) -> bool {
    &&& 0 <= s.next <= s.candidates.len()
    &&& s.stage is AwaitCandidate ==> s.next < s.candidates.len()
}

impl ToolchainSearch {
    /// The search's invariant, kept by every step.
    #[verifier::type_invariant]
    spec fn wf(&self) -> bool {
        search_wf(self@)
    }

    /// Starts the search; the first step is to ask `rustup`.
    pub fn new() -> (res: (ToolchainSearch, SearchStep))
        ensures
            search_wf(res.0@),
            res.0@ == start_view(),
            res.1@ == StepView::RunRustupDocPath,
    {
        let s = ToolchainSearch { stage: Stage::AwaitRustup, path: String::new(), candidates: Vec::new(), next: 0 };
        assert(s@.candidates =~= Seq::<Seq<char>>::empty());
        (s, SearchStep::RunRustupDocPath)
    }

    /// What the search waits for.
    pub fn awaited_step(&self) -> (res: SearchStep)
        ensures
            res@ == awaited(self@),
    {
        proof {
            use_type_invariant(self);
        }
        match &self.stage {
            Stage::AwaitRustup => SearchStep::RunRustupDocPath,
            Stage::AwaitRustupHome => SearchStep::ReadRustupHome,
            Stage::AwaitHomeDir => SearchStep::FindHomeDir,
            Stage::AwaitToolchains { .. } => SearchStep::CheckExists(self.path.clone()),
            Stage::AwaitListing { .. } => SearchStep::ListDir(self.path.clone()),
            Stage::AwaitCandidate { .. } => SearchStep::CheckExists(self.candidates[self.next].clone()),
            Stage::Finished(Ok(p)) => SearchStep::Done(Ok(p.clone())),
            Stage::Finished(Err(m)) => SearchStep::Done(Err(m.clone())),
        }
    }

    fn give_up_exec(&mut self, in_home: bool)
        ensures
            final(self)@ == give_up(old(self)@, in_home),
    {
        proof {
            use_type_invariant(&*self);
        }
        if in_home {
            self.stage = Stage::Finished(Err(String::from_str(NOT_FOUND)));
        } else {
            self.stage = Stage::AwaitHomeDir;
        }
    }

    fn try_candidate_exec(&mut self, in_home: bool)
        ensures
            final(self)@ == try_candidate(old(self)@, in_home, old(self)@.candidates, old(self)@.next),
    {
        proof {
            use_type_invariant(&*self);
        }
        if self.next < self.candidates.len() {
            self.stage = Stage::AwaitCandidate { in_home };
        } else if in_home {
            self.stage = Stage::Finished(Err(String::from_str(NOT_FOUND)));
        } else {
            self.stage = Stage::AwaitHomeDir;
        }
    }

    /// Takes in what was found out, and gives the next step of the search.
    pub fn step(&mut self, event: SearchEvent) -> (res: SearchStep)
        ensures
            search_wf(final(self)@),
            final(self)@ == next_state(old(self)@, event@),
            res@ == awaited(final(self)@),
    {
        proof {
            use_type_invariant(&*self);
        }
        let ghost s = self@;
        let ghost e = event@;
        match (&self.stage, event) {
            (Stage::AwaitRustup, SearchEvent::RustupOutput(out)) => {
                match out {
                    Some(o) => {
                        let trimmed = trim(o.as_str());
                        let pushed = push_path(&self.path, trimmed.as_str());
                        match parent(pushed.as_str()) {
                            Some(p) => {
                                self.path = p.clone();
                                self.stage = Stage::Finished(Ok(p));
                            },
                            None => {
                                self.path = pushed;
                                self.stage = Stage::AwaitRustupHome;
                            },
                        }
                    },
                    None => {
                        self.stage = Stage::AwaitRustupHome;
                    },
                }
            },
            (Stage::AwaitRustupHome, SearchEvent::RustupHome(home)) => {
                match home {
                    Some(h) => {
                        let p = push_path(&self.path, h.as_str());
                        self.path = push_path(&p, "toolchains");
                        self.stage = Stage::AwaitToolchains { in_home: false };
                    },
                    None => {
                        self.stage = Stage::AwaitHomeDir;
                    },
                }
            },
            (Stage::AwaitHomeDir, SearchEvent::HomeDir(home)) => {
                match home {
                    Some(h) => {
                        let p = push_path(&self.path, h.as_str());
                        let p = push_path(&p, ".rustup");
                        self.path = push_path(&p, "toolchains");
                        self.stage = Stage::AwaitToolchains { in_home: true };
                    },
                    None => {
                        self.stage = Stage::Finished(Err(String::from_str(NOT_FOUND)));
                    },
                }
            },
            (Stage::AwaitToolchains { in_home }, SearchEvent::Exists(b)) => {
                let in_home = *in_home;
                if b {
                    self.stage = Stage::AwaitListing { in_home };
                } else {
                    self.give_up_exec(in_home);
                }
            },
            (Stage::AwaitListing { in_home }, SearchEvent::Listing(l)) => {
                let in_home = *in_home;
                match l {
                    Ok(es) => {
                        let ghost ev = es@.map_values(|x: DirEntryRead| x@);
                        let mut cands: Vec<String> = Vec::new();
                        let mut k: usize = 0;
                        while k < es.len()
                            invariant
                                k <= es@.len(),
                                ev == es@.map_values(|x: DirEntryRead| x@),
                                cands@.map_values(|c: String| c@) == candidates_of(self.path@, ev.take(k as int)),
                            decreases es@.len() - k,
                        {
                            let ghost before = cands@.map_values(|c: String| c@);
                            assert(ev.take(k + 1).drop_last() =~= ev.take(k as int));
                            assert(ev.take(k + 1).last() == es@[k as int]@);
                            match &es[k] {
                                DirEntryRead::Entry { name, .. } => {
                                    let entry_path = push_path(&self.path, name.as_str());
                                    let cand = push_path(&entry_path, TOOLCHAIN_DOC_DIR);
                                    cands.push(cand);
                                    assert(cands@.map_values(|c: String| c@) =~= before.push(
                                        spec_push(spec_push(self.path@, name@), TOOLCHAIN_DOC_DIR@),
                                    ));
                                },
                                DirEntryRead::Failed(_) => {},
                            }
                            k = k + 1;
                        }
                        assert(ev.take(es@.len() as int) =~= ev);
                        self.next = 0;
                        self.candidates = cands;
                        self.try_candidate_exec(in_home);
                    },
                    Err(_) => {
                        self.give_up_exec(in_home);
                    },
                }
            },
            (Stage::AwaitCandidate { in_home }, SearchEvent::Exists(b)) => {
                let in_home = *in_home;
                if b {
                    let found = self.candidates[self.next].clone();
                    self.stage = Stage::Finished(Ok(found));
                } else {
                    assert(s.stage is AwaitCandidate);
                    let len = self.candidates.len();
                    assert(self.next < len);
                    let n = self.next + 1;
                    if n < len {
                        self.next = n;
                    } else {
                        self.give_up_exec(in_home);
                        self.next = n;
                    }
                }
            },
            _ => {},
        }
        proof {
            use_type_invariant(&*self);
        }
        self.awaited_step()
    }
}

} // verus!
