use vstd::prelude::*;
use crate::paths::spec_push;
use crate::stdpath::path_parent;
use crate::text::spec_trim;
use crate::toolchain::{
    awaited, candidates_of, next_state, search_wf, EventView, SearchView, StageView, StepView,
    TOOLCHAIN_DOC_DIR,
};
use crate::walk::EntryReadView;

verus! {

/// Whether the event `e` answers what a search at stage `stage` waits for.
pub open spec fn answers(stage: StageView, e: EventView) -> bool {
    match (stage, e) {
        (StageView::AwaitRustup, EventView::RustupOutput(_)) => true,
        (StageView::AwaitRustupHome, EventView::RustupHome(_)) => true,
        (StageView::AwaitHomeDir, EventView::HomeDir(_)) => true,
        (StageView::AwaitToolchains { .. }, EventView::Exists(_)) => true,
        (StageView::AwaitListing { .. }, EventView::Listing(_)) => true,
        (StageView::AwaitCandidate { .. }, EventView::Exists(_)) => true,
        _ => false,
    }
}

/// How far a stage is from the end of the search: the places are tried in a
/// fixed order and none is tried twice.
pub open spec fn stage_rank(stage: StageView) -> int {
    match stage {
        StageView::AwaitRustup => 9,
        StageView::AwaitRustupHome => 8,
        StageView::AwaitToolchains { in_home } => if in_home { 3 } else { 7 },
        StageView::AwaitListing { in_home } => if in_home { 2 } else { 6 },
        StageView::AwaitCandidate { in_home } => if in_home { 1 } else { 5 },
        StageView::AwaitHomeDir => 4,
        StageView::Finished(_) => 0,
    }
}

/// `a` is nearer the end of the search than `b`: at a later stage, or at the
/// same stage with fewer candidates left to try.
pub open spec fn nearer_end(a: SearchView, b: SearchView) -> bool {
    ||| stage_rank(a.stage) < stage_rank(b.stage)
    ||| (stage_rank(a.stage) == stage_rank(b.stage) && a.candidates.len() - a.next < b.candidates.len() - b.next)
}

/// Every answer moves an unfinished search nearer its end, so a search whose
/// steps are all answered ends.
pub proof fn lemma_answer_moves_on(s: SearchView, e: EventView)
    requires
        search_wf(s),
        !(s.stage is Finished),
        answers(s.stage, e),
    ensures
        search_wf(next_state(s, e)),
        nearer_end(next_state(s, e), s),
{
}

/// An event that does not answer what the search waits for changes nothing,
/// and a finished search stays finished with the same outcome.
pub proof fn lemma_other_events_change_nothing(s: SearchView, e: EventView)
    requires
        !answers(s.stage, e) || s.stage is Finished,
    ensures
        next_state(s, e) == s,
{
}

/// When the candidate being checked exists, the search ends with that very
/// candidate.
pub proof fn lemma_existing_candidate_is_the_answer(s: SearchView)
    requires
        search_wf(s),
        s.stage is AwaitCandidate,
    ensures
        awaited(s) is CheckExists,
        next_state(s, EventView::Exists(true)).stage == StageView::Finished(Ok(awaited(s)->CheckExists_0)),
{
}

/// When the candidate being checked does not exist, the search checks the next
/// candidate of the same listing, or gives up on that place when none is left.
pub proof fn lemma_missing_candidate_moves_on(s: SearchView)
    requires
        search_wf(s),
        s.stage is AwaitCandidate,
    ensures
        s.next + 1 < s.candidates.len() ==> awaited(next_state(s, EventView::Exists(false))) == StepView::CheckExists(
            s.candidates[s.next + 1],
        ),
        s.next + 1 >= s.candidates.len() ==> !(next_state(s, EventView::Exists(false)).stage is AwaitCandidate),
        !(next_state(s, EventView::Exists(false)).stage matches StageView::Finished(Ok(_))),
{
}

/// A search answers with a path only when it was just told that the path
/// exists, or when it is the parent of the path `rustup` reported.
pub proof fn lemma_answers_are_confirmed(s: SearchView, e: EventView)
    requires
        search_wf(s),
        !(s.stage is Finished),
        next_state(s, e).stage matches StageView::Finished(Ok(_)),
    ensures
        ({
            let p = next_state(s, e).stage->Finished_0->Ok_0;
            ||| (e == EventView::Exists(true) && awaited(s) == StepView::CheckExists(p))
            ||| (s.stage is AwaitRustup && (e matches EventView::RustupOutput(Some(o)) && path_parent(
                spec_push(s.path, spec_trim(o)),
            ) == Some(p)))
        }),
{
}

/// Whether a listed entry could be read.
pub open spec fn is_read_entry(e: EntryReadView) -> bool {
    e is Entry
}

/// The documentation directory of the toolchain listed as `e` in `dir`.
pub open spec fn toolchain_doc_of(dir: Seq<char>) -> spec_fn(EntryReadView) -> Seq<char> {
    |e: EntryReadView| spec_push(spec_push(dir, e->Entry_name), TOOLCHAIN_DOC_DIR@)
}

proof fn lemma_candidates_are_listing_order(dir: Seq<char>, es: Seq<EntryReadView>)
    ensures
        candidates_of(dir, es) == es.filter(|e: EntryReadView| is_read_entry(e)).map_values(toolchain_doc_of(dir)),
    decreases es.len(),
{
    let pred = |e: EntryReadView| is_read_entry(e);
    if es.len() == 0 {
        reveal(Seq::filter);
        assert(es.filter(pred) =~= Seq::<EntryReadView>::empty());
        assert(es.filter(pred).map_values(toolchain_doc_of(dir)) =~= Seq::<Seq<char>>::empty());
    } else {
        lemma_candidates_are_listing_order(dir, es.drop_last());
        assert(es.drop_last().push(es.last()) =~= es);
        es.drop_last().lemma_filter_push(es.last(), pred);
        let f = es.drop_last().filter(pred);
        if pred(es.last()) {
            assert(f.push(es.last()).map_values(toolchain_doc_of(dir)) =~= f.map_values(toolchain_doc_of(dir)).push(
                toolchain_doc_of(dir)(es.last()),
            ));
        }
    }
}

/// After reading a `toolchains` directory, the search tries, in the order of the
/// listing, the documentation directory of every toolchain that could be read,
/// starting with the first.
pub proof fn lemma_listing_gives_candidates_in_order(s: SearchView, es: Seq<EntryReadView>)
    requires
        search_wf(s),
        s.stage is AwaitListing,
    ensures
        ({
            let cands = es.filter(|e: EntryReadView| is_read_entry(e)).map_values(toolchain_doc_of(s.path));
            let n = next_state(s, EventView::Listing(Ok(es)));
            &&& n.candidates == cands
            &&& n.next == 0
            &&& cands.len() > 0 ==> awaited(n) == StepView::CheckExists(cands[0])
        }),
{
    lemma_candidates_are_listing_order(s.path, es);
}

} // verus!
