use vstd::prelude::*;
use crate::paths::spec_push;
use crate::walk::{
    combine, entry_at, entry_outcome, FailureView, holds_docs_from, listing_len, recorded, target_outcome, tree_wf, walk,
    walk_from, EntryReadView, EntryView, ListingView, NodeView, WalkView,
};

verus! {

/// `t2` knows at least what `t1` knows: it has the nodes of `t1`, with the same
/// paths and names, and every listing read in `t1` is the same in `t2`.
pub open spec fn extends(t1: Seq<NodeView>, t2: Seq<NodeView>) -> bool {
    &&& t1.len() <= t2.len()
    &&& forall|j: int|
        0 <= j < t1.len() ==> {
            &&& (#[trigger] t2[j]).path == t1[j].path
            &&& t2[j].name == t1[j].name
            &&& (t1[j].listing is Unread || t2[j].listing == t1[j].listing)
        }
}

/// Every directory that an outcome asks for is a node of `t` not read yet, and
/// an outcome that asks for directories asks for at least one.
pub open spec fn pending_unread(t: Seq<NodeView>, w: WalkView) -> bool {
    match w {
        WalkView::Pending(ps) => ps.len() > 0 && forall|j: int|
            0 <= j < ps.len() ==> 0 <= #[trigger] ps[j] < t.len() && t[ps[j]].listing is Unread,
        _ => true,
    }
}

/// Once the outcome so far asks for a directory, the rest of the search asks
/// for directories too.
proof fn lemma_pending_stays(t: Seq<NodeView>, i: int, k: int, acc: WalkView)
    requires
        acc is Pending,
    ensures
        walk_from(t, i, k, acc) is Pending,
    decreases t.len() - i, listing_len(t, i) - k,
{
    if 0 <= i < t.len() {
        match t[i].listing {
            ListingView::Read(es) => {
                if 0 <= k < es.len() {
                    assert(entry_at(t, i, k) == es[k]);
                    let head = entry_outcome(t, i, k);
                    lemma_pending_stays(t, i, k + 1, combine(acc, head));
                }
            },
            _ => {},
        }
    }
}

/// The scan for a `doc` directory gives the same answer in a tree that knows more.
proof fn lemma_holds_docs_extends(t1: Seq<NodeView>, t2: Seq<NodeView>, es: Seq<EntryView>, k: int)
    requires
        extends(t1, t2),
        forall|j: int| 0 <= j < es.len() && #[trigger] es[j] is Dir ==> 0 <= es[j]->Dir_0 < t1.len(),
    ensures
        holds_docs_from(t2, es, k) == holds_docs_from(t1, es, k),
    decreases es.len() - k,
{
    if 0 <= k < es.len() {
        lemma_holds_docs_extends(t1, t2, es, k + 1);
        match es[k] {
            EntryView::Dir(d) => {
                assert(t2[d].name == t1[d].name);
            },
            _ => {},
        }
    }
}

proof fn lemma_walk_from_extends(t1: Seq<NodeView>, t2: Seq<NodeView>, i: int, k: int, acc: WalkView)
    requires
        tree_wf(t1),
        extends(t1, t2),
        0 <= i < t1.len(),
        !(walk_from(t1, i, k, acc) is Pending),
    ensures
        walk_from(t2, i, k, acc) == walk_from(t1, i, k, acc),
    decreases t1.len() - i, listing_len(t1, i) - k,
{
    if acc is Pending {
        lemma_pending_stays(t1, i, k, acc);
        return;
    }
    if acc is Failed {
        return;
    }
    assert(t2[i] == t2[i]);
    match t1[i].listing {
        ListingView::Unread => {},
        ListingView::Failed(m) => {},
        ListingView::Read(es) => {
            if 0 <= k < es.len() {
                assert(entry_at(t1, i, k) == es[k]);
                assert(entry_at(t2, i, k) == es[k]);
                let head1 = entry_outcome(t1, i, k);
                let head2 = entry_outcome(t2, i, k);
                assert(walk_from(t1, i, k, acc) == walk_from(t1, i, k + 1, combine(acc, head1)));
                assert(walk_from(t2, i, k, acc) == walk_from(t2, i, k + 1, combine(acc, head2)));
                if head1 is Pending {
                    lemma_pending_stays(t1, i, k + 1, combine(acc, head1));
                }
                match es[k] {
                    EntryView::Dir(c) => {
                        assert(i < c < t1.len());
                        assert(t2[c].name == t1[c].name);
                        if t1[c].name == "target"@ {
                            match t1[c].listing {
                                ListingView::Read(es_c) => {
                                    assert forall|j: int|
                                        0 <= j < es_c.len() && #[trigger] es_c[j] is Dir implies 0
                                        <= es_c[j]->Dir_0 < t1.len() by {
                                        assert(entry_at(t1, c, j) == es_c[j]);
                                    }
                                    lemma_holds_docs_extends(t1, t2, es_c, 0);
                                },
                                _ => {},
                            }
                        } else {
                            lemma_walk_from_extends(t1, t2, c, 0, WalkView::Found(Seq::empty()));
                        }
                    },
                    _ => {},
                }
                assert(head2 == head1);
                lemma_walk_from_extends(t1, t2, i, k + 1, combine(acc, head1));
            }
        },
    }
}

/// A search that has ended keeps its answer: reading more directories into the
/// tree never changes the documentation found or the failure met.
pub proof fn lemma_settled_search_keeps_answer(t1: Seq<NodeView>, t2: Seq<NodeView>)
    requires
        tree_wf(t1),
        extends(t1, t2),
        !(walk(t1, 0) is Pending),
    ensures
        walk(t2, 0) == walk(t1, 0),
{
    lemma_walk_from_extends(t1, t2, 0, 0, WalkView::Found(Seq::empty()));
}

/// Recording the listing of an unread node gives a tree that knows more.
pub proof fn lemma_record_extends(t: Seq<NodeView>, i: int, read: Result<Seq<EntryReadView>, FailureView>)
    requires
        0 <= i < t.len(),
        t[i].listing is Unread,
    ensures
        extends(t, recorded(t, i, read)),
{
    let t2 = recorded(t, i, read);
    assert forall|j: int| 0 <= j < t.len() implies {
        &&& (#[trigger] t2[j]).path == t[j].path
        &&& t2[j].name == t[j].name
        &&& (t[j].listing is Unread || t2[j].listing == t[j].listing)
    } by {
        if j != i {
            assert(t2[j] == t[j]);
        }
    }
}

proof fn lemma_combine_pending_unread(t: Seq<NodeView>, a: WalkView, b: WalkView)
    requires
        pending_unread(t, a),
        pending_unread(t, b),
    ensures
        pending_unread(t, combine(a, b)),
{
    match (a, b) {
        (WalkView::Pending(p), WalkView::Pending(q)) => {
            assert forall|j: int| 0 <= j < (p + q).len() implies 0 <= #[trigger] (p + q)[j] < t.len() && t[(p
                + q)[j]].listing is Unread by {
                if j < p.len() {
                    assert((p + q)[j] == p[j]);
                } else {
                    assert((p + q)[j] == q[j - p.len()]);
                }
            }
        },
        _ => {},
    }
}

proof fn lemma_walk_from_pending_unread(t: Seq<NodeView>, i: int, k: int, acc: WalkView)
    requires
        pending_unread(t, acc),
    ensures
        pending_unread(t, walk_from(t, i, k, acc)),
    decreases t.len() - i, listing_len(t, i) - k,
{
    if 0 <= i < t.len() && !(acc is Failed) {
        match t[i].listing {
            ListingView::Unread => {
                lemma_combine_pending_unread(t, acc, WalkView::Pending(seq![i]));
            },
            ListingView::Failed(m) => {
                lemma_combine_pending_unread(t, acc, WalkView::Failed(m));
            },
            ListingView::Read(es) => {
                if 0 <= k < es.len() {
                    assert(entry_at(t, i, k) == es[k]);
                    let head = entry_outcome(t, i, k);
                    match es[k] {
                        EntryView::Dir(c) => {
                            if i < c < t.len() && t[c].name != "target"@ {
                                lemma_walk_from_pending_unread(t, c, 0, WalkView::Found(Seq::empty()));
                            }
                        },
                        _ => {},
                    }
                    lemma_combine_pending_unread(t, acc, head);
                    lemma_walk_from_pending_unread(t, i, k + 1, combine(acc, head));
                }
            },
        }
    }
}

/// A search that cannot end yet asks for at least one directory, and only for
/// nodes of the tree that have not been read: recording their listings is
/// always possible and always adds to what the tree knows.
pub proof fn lemma_pending_are_unread(t: Seq<NodeView>)
    ensures
        pending_unread(t, walk(t, 0)),
{
    lemma_walk_from_pending_unread(t, 0, 0, WalkView::Found(Seq::empty()));
}

/// Node `c` is a directory named `target` whose listing shows a `doc` directory.
pub open spec fn is_doc_target(t: Seq<NodeView>, c: int) -> bool {
    &&& 0 <= c < t.len()
    &&& t[c].name == "target"@
    &&& t[c].listing matches ListingView::Read(es) && holds_docs_from(t, es, 0)
}

/// Every directory an outcome reports found is such a `target` directory.
pub open spec fn found_are_targets(t: Seq<NodeView>, w: WalkView) -> bool {
    match w {
        WalkView::Found(ps) => forall|j: int| 0 <= j < ps.len() ==> #[trigger] is_doc_target_path(t, ps[j]),
        _ => true,
    }
}

/// `p` is the path of a `target` directory of `t` that holds a `doc` directory.
pub open spec fn is_doc_target_path(t: Seq<NodeView>, p: Seq<char>) -> bool {
    exists|c: int| #[trigger] is_doc_target(t, c) && p == t[c].path
}

proof fn lemma_combine_found_are_targets(t: Seq<NodeView>, a: WalkView, b: WalkView)
    requires
        found_are_targets(t, a),
        found_are_targets(t, b),
    ensures
        found_are_targets(t, combine(a, b)),
{
    if let WalkView::Found(p) = a {
        if let WalkView::Found(q) = b {
            let r = p + q;
            assert(combine(a, b) == WalkView::Found(r));
            assert forall|j: int| 0 <= j < r.len() implies #[trigger] is_doc_target_path(t, r[j]) by {
                if j < p.len() {
                    assert(r[j] == p[j]);
                    assert(is_doc_target_path(t, p[j]));
                } else {
                    assert(r[j] == q[j - p.len()]);
                    assert(is_doc_target_path(t, q[j - p.len()]));
                }
            }
            assert(found_are_targets(t, WalkView::Found(r)));
        } else {
            assert(combine(a, b) == b);
        }
    } else {
        assert(!(combine(a, b) is Found));
    }
}

proof fn lemma_walk_from_found_are_targets(t: Seq<NodeView>, i: int, k: int, acc: WalkView)
    requires
        found_are_targets(t, acc),
    ensures
        found_are_targets(t, walk_from(t, i, k, acc)),
    decreases t.len() - i, listing_len(t, i) - k,
{
    if 0 <= i < t.len() && !(acc is Failed) {
        match t[i].listing {
            ListingView::Unread => {
                lemma_combine_found_are_targets(t, acc, WalkView::Pending(seq![i]));
            },
            ListingView::Failed(m) => {
                lemma_combine_found_are_targets(t, acc, WalkView::Failed(m));
            },
            ListingView::Read(es) => {
                if 0 <= k < es.len() {
                    assert(entry_at(t, i, k) == es[k]);
                    let head = entry_outcome(t, i, k);
                    match es[k] {
                        EntryView::Dir(c) => {
                            if i < c < t.len() {
                                if t[c].name == "target"@ {
                                    match target_outcome(t, c) {
                                        WalkView::Found(ps) => {
                                            if ps.len() > 0 {
                                                assert(is_doc_target(t, c));
                                                assert(ps[0] == t[c].path);
                                            }
                                        },
                                        _ => {},
                                    }
                                } else {
                                    lemma_walk_from_found_are_targets(t, c, 0, WalkView::Found(Seq::empty()));
                                }
                            }
                        },
                        _ => {},
                    }
                    lemma_combine_found_are_targets(t, acc, head);
                    lemma_walk_from_found_are_targets(t, i, k + 1, combine(acc, head));
                }
            },
        }
    }
}

/// Every directory the search reports is a directory named `target` that
/// holds a directory named `doc`.
pub proof fn lemma_found_are_doc_targets(t: Seq<NodeView>)
    ensures
        found_are_targets(t, walk(t, 0)),
{
    lemma_walk_from_found_are_targets(t, 0, 0, WalkView::Found(Seq::empty()));
}

/// `p` lies strictly below the directory `root`: it starts with `root`, is
/// longer, and continues after a separator.
pub open spec fn below(root: Seq<char>, p: Seq<char>) -> bool {
    &&& root.len() < p.len()
    &&& p.take(root.len() as int) == root
    &&& (root.len() == 0 || root.last() == '/' || p[root.len() as int] == '/')
}

/// A name as directory entries have them: not empty, not starting with a separator.
pub open spec fn entry_name_ok(n: Seq<char>) -> bool {
    n.len() > 0 && n[0] != '/'
}

proof fn lemma_push_below(base: Seq<char>, name: Seq<char>)
    requires
        entry_name_ok(name),
    ensures
        below(base, spec_push(base, name)),
{
    let p = spec_push(base, name);
    if base.len() > 0 && base.last() != '/' {
        assert(p == base + seq!['/'] + name);
        assert(p.take(base.len() as int) =~= base);
        assert(p[base.len() as int] == '/');
    } else {
        assert(p == base + name);
        assert(p.take(base.len() as int) =~= base);
    }
}

proof fn lemma_below_transitive(a: Seq<char>, b: Seq<char>, c: Seq<char>)
    requires
        below(a, b),
        below(b, c),
    ensures
        below(a, c),
{
    assert(c.take(a.len() as int) =~= b.take(a.len() as int)) by {
        assert forall|x: int| 0 <= x < a.len() implies c.take(a.len() as int)[x] == b.take(a.len() as int)[x] by {
            assert(c.take(b.len() as int)[x] == c[x]);
        }
    }
    if !(a.len() == 0 || a.last() == '/') {
        assert(c.take(b.len() as int)[a.len() as int] == c[a.len() as int]);
    }
}

/// Every directory an outcome reports found lies strictly below `root`.
pub open spec fn found_below(root: Seq<char>, w: WalkView) -> bool {
    match w {
        WalkView::Found(ps) => forall|j: int| 0 <= j < ps.len() ==> below(root, #[trigger] ps[j]),
        _ => true,
    }
}

proof fn lemma_combine_found_below(root: Seq<char>, a: WalkView, b: WalkView)
    requires
        found_below(root, a),
        found_below(root, b),
    ensures
        found_below(root, combine(a, b)),
{
    if let WalkView::Found(p) = a {
        if let WalkView::Found(q) = b {
            let r = p + q;
            assert(combine(a, b) == WalkView::Found(r));
            assert forall|j: int| 0 <= j < r.len() implies below(root, #[trigger] r[j]) by {
                if j < p.len() {
                    assert(r[j] == p[j]);
                } else {
                    assert(r[j] == q[j - p.len()]);
                }
            }
        } else {
            assert(combine(a, b) == b);
        }
    } else {
        assert(!(combine(a, b) is Found));
    }
}

proof fn lemma_walk_from_found_below(t: Seq<NodeView>, i: int, k: int, acc: WalkView)
    requires
        tree_wf(t),
        forall|c: int| 0 < c < t.len() ==> entry_name_ok(#[trigger] t[c].name),
        0 <= i < t.len(),
        found_below(t[i].path, acc),
    ensures
        found_below(t[i].path, walk_from(t, i, k, acc)),
    decreases t.len() - i, listing_len(t, i) - k,
{
    if !(acc is Failed) {
        match t[i].listing {
            ListingView::Unread => {
                lemma_combine_found_below(t[i].path, acc, WalkView::Pending(seq![i]));
            },
            ListingView::Failed(m) => {
                lemma_combine_found_below(t[i].path, acc, WalkView::Failed(m));
            },
            ListingView::Read(es) => {
                if 0 <= k < es.len() {
                    assert(entry_at(t, i, k) == es[k]);
                    let head = entry_outcome(t, i, k);
                    match es[k] {
                        EntryView::Dir(c) => {
                            assert(i < c < t.len());
                            assert(t[c].path == spec_push(t[i].path, t[c].name));
                            lemma_push_below(t[i].path, t[c].name);
                            if t[c].name == "target"@ {
                                match target_outcome(t, c) {
                                    WalkView::Found(ps) => {
                                        assert forall|j: int| 0 <= j < ps.len() implies below(
                                            t[i].path,
                                            #[trigger] ps[j],
                                        ) by {
                                            assert(ps[j] == t[c].path);
                                        }
                                    },
                                    _ => {},
                                }
                            } else {
                                lemma_walk_from_found_below(t, c, 0, WalkView::Found(Seq::empty()));
                                match walk_from(t, c, 0, WalkView::Found(Seq::empty())) {
                                    WalkView::Found(ps) => {
                                        assert forall|j: int| 0 <= j < ps.len() implies below(
                                            t[i].path,
                                            #[trigger] ps[j],
                                        ) by {
                                            lemma_below_transitive(t[i].path, t[c].path, ps[j]);
                                        }
                                    },
                                    _ => {},
                                }
                            }
                        },
                        _ => {},
                    }
                    lemma_combine_found_below(t[i].path, acc, head);
                    lemma_walk_from_found_below(t, i, k + 1, combine(acc, head));
                }
            },
        }
    }
}

/// Every directory the search reports lies strictly below the directory where
/// it starts, when every directory entry has a non-empty name that does not
/// start with a separator (as the names a directory listing gives do).
pub proof fn lemma_found_below_start(t: Seq<NodeView>)
    requires
        tree_wf(t),
        forall|c: int| 0 < c < t.len() ==> entry_name_ok(#[trigger] t[c].name),
    ensures
        found_below(t[0].path, walk(t, 0)),
{
    lemma_walk_from_found_below(t, 0, 0, WalkView::Found(Seq::empty()));
}

/// The entry `e` is a directory named `doc`.
pub open spec fn is_doc_entry(t: Seq<NodeView>, e: EntryView) -> bool {
    &&& e is Dir
    &&& 0 <= e->Dir_0 < t.len()
    &&& t[e->Dir_0].name == "doc"@
}

/// From entry `k` on, a listing shows a directory named `doc` with no
/// unreadable entry before it; entries that are not directories do not matter.
pub open spec fn shows_doc_from(t: Seq<NodeView>, es: Seq<EntryView>, k: int) -> bool {
    exists|m: int|
        k <= m < es.len() && #[trigger] is_doc_entry(t, es[m]) && forall|j: int| k <= j < m ==> !(#[trigger] es[j] is Failed)
}

proof fn lemma_holds_docs_from_iff(t: Seq<NodeView>, es: Seq<EntryView>, k: int)
    requires
        0 <= k,
    ensures
        holds_docs_from(t, es, k) <==> shows_doc_from(t, es, k),
    decreases es.len() - k,
{
    if k < es.len() {
        lemma_holds_docs_from_iff(t, es, k + 1);
        if is_doc_entry(t, es[k]) {
            assert(shows_doc_from(t, es, k));
        } else if es[k] is Failed {
            if shows_doc_from(t, es, k) {
                let m = choose|m: int|
                    k <= m < es.len() && #[trigger] is_doc_entry(t, es[m]) && forall|j: int|
                        k <= j < m ==> !(#[trigger] es[j] is Failed);
                assert(m != k);
                assert(!(es[k] is Failed));
            }
        } else {
            if shows_doc_from(t, es, k) {
                let m = choose|m: int|
                    k <= m < es.len() && #[trigger] is_doc_entry(t, es[m]) && forall|j: int|
                        k <= j < m ==> !(#[trigger] es[j] is Failed);
                assert(m != k);
                assert(shows_doc_from(t, es, k + 1));
            }
            if shows_doc_from(t, es, k + 1) {
                let m = choose|m: int|
                    k + 1 <= m < es.len() && #[trigger] is_doc_entry(t, es[m]) && forall|j: int|
                        k + 1 <= j < m ==> !(#[trigger] es[j] is Failed);
                assert forall|j: int| k <= j < m implies !(#[trigger] es[j] is Failed) by {}
                assert(shows_doc_from(t, es, k));
            }
        }
    }
}

/// A `target` directory that has been read is reported exactly when its
/// listing shows a directory named `doc` with no unreadable entry before it;
/// files in it do not matter. One that cannot be read is passed over.
pub proof fn lemma_target_reported_iff_it_shows_doc(t: Seq<NodeView>, c: int)
    requires
        0 <= c < t.len(),
    ensures
        t[c].listing matches ListingView::Read(es) ==> target_outcome(t, c) == (if exists|m: int|
            0 <= m < es.len() && (#[trigger] es[m]) is Dir && 0 <= es[m]->Dir_0 < t.len() && t[es[m]->Dir_0].name
                == "doc"@ && forall|j: int| 0 <= j < m ==> !(#[trigger] es[j] is Failed) {
            WalkView::Found(seq![t[c].path])
        } else {
            WalkView::Found(Seq::empty())
        }),
        t[c].listing is Failed ==> target_outcome(t, c) == WalkView::Found(Seq::<Seq<char>>::empty()),
        t[c].listing is Unread ==> target_outcome(t, c) == WalkView::Pending(seq![c]),
{
    if let ListingView::Read(es) = t[c].listing {
        lemma_holds_docs_from_iff(t, es, 0);
        if shows_doc_from(t, es, 0) {
            let m = choose|m: int|
                0 <= m < es.len() && #[trigger] is_doc_entry(t, es[m]) && forall|j: int|
                    0 <= j < m ==> !(#[trigger] es[j] is Failed);
            assert(es[m] is Dir);
        }
        if exists|m: int|
            0 <= m < es.len() && (#[trigger] es[m]) is Dir && 0 <= es[m]->Dir_0 < t.len() && t[es[m]->Dir_0].name
                == "doc"@ && forall|j: int| 0 <= j < m ==> !(#[trigger] es[j] is Failed) {
            let m = choose|m: int|
                0 <= m < es.len() && (#[trigger] es[m]) is Dir && 0 <= es[m]->Dir_0 < t.len() && t[es[m]->Dir_0].name
                    == "doc"@ && forall|j: int| 0 <= j < m ==> !(#[trigger] es[j] is Failed);
            assert(is_doc_entry(t, es[m]));
        }
    }
}

} // verus!
