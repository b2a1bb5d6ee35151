use vstd::prelude::*;
use crate::paths::{push_path, spec_push};

verus! {

#[verifier::external_type_specification]
#[verifier::external_body]
pub struct ExIoErrorKind(std::io::ErrorKind);

/// Why a directory or one of its entries could not be read: the kind of the
/// system's error and its text.
pub struct IoFailure {
    pub kind: std::io::ErrorKind,
    pub message: String,
}

/// The model of an [`IoFailure`].
pub struct FailureView {
    pub kind: std::io::ErrorKind,
    pub message: Seq<char>,
}

impl View for IoFailure {
    type V = FailureView;

    open spec fn view(&self) -> FailureView {
        FailureView { kind: self.kind, message: self.message@ }
    }
}

/// A copy of the failure `f`.
pub fn clone_failure(f: &IoFailure) -> (res: IoFailure)
    ensures
        res@ == f@,
{
    IoFailure { kind: f.kind, message: f.message.clone() }
}

/// What reading one entry of a directory gave.
pub enum DirEntryRead {
    /// The entry could not be read; the text says why.
    Failed(IoFailure),
    /// An entry, with its file name and whether it is a directory.
    Entry { name: String, is_dir: bool },
}

/// The model of a [`DirEntryRead`].
pub enum EntryReadView {
    Failed(FailureView),
    Entry { name: Seq<char>, is_dir: bool },
}

impl View for DirEntryRead {
    type V = EntryReadView;

    open spec fn view(&self) -> EntryReadView {
        match self {
            DirEntryRead::Failed(m) => EntryReadView::Failed(m@),
            DirEntryRead::Entry { name, is_dir } => EntryReadView::Entry { name: name@, is_dir: *is_dir },
        }
    }
}

/// One entry of a directory listing held in a [`DocTree`].
pub enum Listed {
    /// The entry could not be read.
    Failed(IoFailure),
    /// An entry that is not a directory.
    File,
    /// A directory; the number is the node that stands for it.
    Dir(usize),
}

/// The model of a [`Listed`] entry.
pub enum EntryView {
    Failed(FailureView),
    File,
    Dir(int),
}

impl View for Listed {
    type V = EntryView;

    open spec fn view(&self) -> EntryView {
        match self {
            Listed::Failed(m) => EntryView::Failed(m@),
            Listed::File => EntryView::File,
            Listed::Dir(c) => EntryView::Dir(*c as int),
        }
    }
}

/// What is known of a directory's contents.
pub enum Listing {
    /// Not read yet.
    Unread,
    /// Reading the directory failed.
    Failed(IoFailure),
    /// The entries of the directory, in the order the system gave them.
    Read(Vec<Listed>),
}

/// The model of a [`Listing`].
pub enum ListingView {
    Unread,
    Failed(FailureView),
    Read(Seq<EntryView>),
}

impl View for Listing {
    type V = ListingView;

    open spec fn view(&self) -> ListingView {
        match self {
            Listing::Unread => ListingView::Unread,
            Listing::Failed(m) => ListingView::Failed(m@),
            Listing::Read(es) => ListingView::Read(es@.map_values(|e: Listed| e@)),
        }
    }
}

/// A directory met during the search.
pub struct DirNode {
    path: String,
    name: String,
    listing: Listing,
}

/// The model of a [`DirNode`].
pub struct NodeView {
    pub path: Seq<char>,
    pub name: Seq<char>,
    pub listing: ListingView,
}

impl View for DirNode {
    type V = NodeView;

    closed spec fn view(&self) -> NodeView {
        NodeView { path: self.path@, name: self.name@, listing: self.listing@ }
    }
}

/// The directories seen so far by a search for documentation, starting at
/// node 0, the directory where the search begins.
pub struct DocTree {
    nodes: Vec<DirNode>,
}

/// The models of a sequence of nodes.
spec fn nodes_view(ns: Seq<DirNode>) -> Seq<NodeView> {
    ns.map_values(|n: DirNode| n@)
}

impl View for DocTree {
    type V = Seq<NodeView>;

    closed spec fn view(&self) -> Seq<NodeView> {
        nodes_view(self.nodes@)
    }
}

/// The outcome of a search, as a model: the documentation directories found,
/// the first failure met, or the directories whose listing is still needed.
pub enum WalkView {
    Found(Seq<Seq<char>>),
    Failed(FailureView),
    Pending(Seq<int>),
}

/// The outcome of [`find_doc_entries`].
pub enum DocSearch {
    /// The search is over: the documentation directories, or the first failure.
    Done(Result<Vec<String>, IoFailure>),
    /// These directories have to be read before the search can go on.
    NeedListings(Vec<usize>),
}

impl View for DocSearch {
    type V = WalkView;

    open spec fn view(&self) -> WalkView {
        match self {
            DocSearch::Done(Ok(v)) => WalkView::Found(v@.map_values(|s: String| s@)),
            DocSearch::Done(Err(m)) => WalkView::Failed(m@),
            DocSearch::NeedListings(ids) => WalkView::Pending(ids@.map_values(|x: usize| x as int)),
        }
    }
}

/// The entry `k` of node `i`, where `i` has been read and has such an entry.
pub open spec fn entry_at(t: Seq<NodeView>, i: int, k: int) -> EntryView {
    match t[i].listing {
        ListingView::Read(es) => es[k],
        _ => EntryView::File,
    }
}

/// How many entries the listing of node `i` holds (none unless it was read).
pub open spec fn listing_len(t: Seq<NodeView>, i: int) -> int {
    match t[i].listing {
        ListingView::Read(es) => es.len() as int,
        _ => 0,
    }
}

/// The tree's invariant: there is a start node; every directory entry of a
/// read listing points to a later node whose path is the parent's path with
/// the entry's name pushed onto it.
pub open spec fn tree_wf(t: Seq<NodeView>) -> bool {
    &&& t.len() > 0
    &&& forall|i: int, k: int|
        0 <= i < t.len() && 0 <= k < listing_len(t, i) && #[trigger] entry_at(t, i, k) is Dir ==> {
            let c = entry_at(t, i, k)->Dir_0;
            &&& i < c < t.len()
            &&& t[c].path == spec_push(t[i].path, t[c].name)
        }
}

/// Joining the outcome so far with the outcome of the next entry, in order: a
/// failure ends the search; directories still to read are gathered.
pub open spec fn combine(acc: WalkView, next: WalkView) -> WalkView {
    match acc {
        WalkView::Failed(m) => WalkView::Failed(m),
        WalkView::Found(a) => match next {
            WalkView::Found(b) => WalkView::Found(a + b),
            other => other,
        },
        WalkView::Pending(p) => match next {
            WalkView::Pending(q) => WalkView::Pending(p + q),
            _ => WalkView::Pending(p),
        },
    }
}

/// Whether the entries of a listing, from entry `k` on, show a directory named
/// `doc` before any entry that could not be read.
pub open spec fn holds_docs_from(t: Seq<NodeView>, es: Seq<EntryView>, k: int) -> bool
    decreases es.len() - k,
{
    if k < 0 || k >= es.len() {
        false
    } else {
        match es[k] {
            EntryView::Failed(_) => false,
            EntryView::File => holds_docs_from(t, es, k + 1),
            EntryView::Dir(d) => if 0 <= d < t.len() && t[d].name == "doc"@ {
                true
            } else {
                holds_docs_from(t, es, k + 1)
            },
        }
    }
}

/// What a directory named `target` adds to the search: its own path when it
/// holds a `doc` directory, nothing when it does not or cannot be read.
pub open spec fn target_outcome(t: Seq<NodeView>, c: int) -> WalkView {
    match t[c].listing {
        ListingView::Unread => WalkView::Pending(seq![c]),
        ListingView::Failed(_) => WalkView::Found(Seq::empty()),
        ListingView::Read(es) => if holds_docs_from(t, es, 0) {
            WalkView::Found(seq![t[c].path])
        } else {
            WalkView::Found(Seq::empty())
        },
    }
}

/// The search below node `i`, going on from its entry `k` with the outcome
/// `acc` of the entries before: directories named `target` are taken when they
/// hold docs, other directories are searched in turn, depth first.
pub open spec fn walk_from(t: Seq<NodeView>, i: int, k: int, acc: WalkView) -> WalkView
    decreases t.len() - i, listing_len(t, i) - k, 1int,
{
    if !(0 <= i < t.len()) || acc is Failed {
        acc
    } else {
        match t[i].listing {
            ListingView::Unread => combine(acc, WalkView::Pending(seq![i])),
            ListingView::Failed(m) => combine(acc, WalkView::Failed(m)),
            ListingView::Read(es) => if k < 0 || k >= es.len() {
                acc
            } else {
                walk_from(t, i, k + 1, combine(acc, entry_outcome(t, i, k)))
            },
        }
    }
}

/// What entry `k` of node `i` adds to the search: an entry that could not be
/// read fails it; a directory named `target` adds itself when it holds docs;
/// any other directory is searched in turn; other entries add nothing.
pub open spec fn entry_outcome(t: Seq<NodeView>, i: int, k: int) -> WalkView
    decreases t.len() - i, listing_len(t, i) - k, 0int,
{
    if !(0 <= i < t.len()) || !(0 <= k < listing_len(t, i)) {
        WalkView::Found(Seq::empty())
    } else {
        match entry_at(t, i, k) {
            EntryView::Failed(m) => WalkView::Failed(m),
            EntryView::File => WalkView::Found(Seq::empty()),
            EntryView::Dir(c) => if i < c < t.len() {
                if t[c].name == "target"@ {
                    target_outcome(t, c)
                } else {
                    walk_from(t, c, 0, WalkView::Found(Seq::empty()))
                }
            } else {
                WalkView::Found(Seq::empty())
            },
        }
    }
}

/// The search below node `i`.
pub open spec fn walk(t: Seq<NodeView>, i: int) -> WalkView {
    walk_from(t, i, 0, WalkView::Found(Seq::empty()))
}

/// Whether `s` reads `lit`.
fn is_named(s: &String, lit: &str) -> (res: bool)
    ensures
        res == (s@ == lit@),
{
    let other = String::from_str(lit);
    *s == other
}

fn combine_exec(acc: DocSearch, next: DocSearch) -> (res: DocSearch)
    ensures
        res@ == combine(acc@, next@),
{
    match acc {
        DocSearch::Done(Err(m)) => DocSearch::Done(Err(m)),
        DocSearch::Done(Ok(mut a)) => match next {
            DocSearch::Done(Ok(mut b)) => {
                let ghost a0 = a@;
                let ghost b0 = b@;
                a.append(&mut b);
                assert(a@.map_values(|s: String| s@) =~= a0.map_values(|s: String| s@) + b0.map_values(
                    |s: String| s@,
                ));
                DocSearch::Done(Ok(a))
            },
            other => other,
        },
        DocSearch::NeedListings(mut p) => match next {
            DocSearch::NeedListings(mut q) => {
                let ghost p0 = p@;
                let ghost q0 = q@;
                p.append(&mut q);
                assert(p@.map_values(|x: usize| x as int) =~= p0.map_values(|x: usize| x as int)
                    + q0.map_values(|x: usize| x as int));
                DocSearch::NeedListings(p)
            },
            _ => DocSearch::NeedListings(p),
        },
    }
}

impl DocTree {
    /// The tree's invariant, kept by every operation.
    #[verifier::type_invariant]
    spec fn wf(&self) -> bool {
        tree_wf(self@)
    }

    /// Whether the listing `es` of a target directory shows a `doc` directory.
    fn holds_docs(&self, es: &Vec<Listed>) -> (res: bool)
        requires
            self.wf(),
            forall|k: int| 0 <= k < es@.len() && #[trigger] es@[k] is Dir ==> es@[k]->Dir_0 < self@.len(),
        ensures
            res == holds_docs_from(self@, es@.map_values(|e: Listed| e@), 0),
    {
        let ghost t = self@;
        let ghost ev = es@.map_values(|e: Listed| e@);
        let mut k: usize = 0;
        while k < es.len()
            invariant
                t == self@,
                ev == es@.map_values(|e: Listed| e@),
                k <= es@.len(),
                forall|j: int| 0 <= j < es@.len() && #[trigger] es@[j] is Dir ==> es@[j]->Dir_0 < self@.len(),
                holds_docs_from(t, ev, 0) == holds_docs_from(t, ev, k as int),
            decreases es@.len() - k,
        {
            match &es[k] {
                Listed::Failed(_) => {
                    return false;
                },
                Listed::File => {},
                Listed::Dir(d) => {
                    if is_named(&self.nodes[*d].name, "doc") {
                        return true;
                    }
                },
            }
            k = k + 1;
        }
        false
    }

    /// What the directory `c`, named `target`, adds to the search.
    fn target_exec(&self, c: usize) -> (res: DocSearch)
        requires
            self.wf(),
            c < self@.len(),
        ensures
            res@ == target_outcome(self@, c as int),
    {
        let node = &self.nodes[c];
        match &node.listing {
            Listing::Unread => {
                let v = vec![c];
                assert(v@.map_values(|x: usize| x as int) =~= seq![c as int]);
                DocSearch::NeedListings(v)
            },
            Listing::Failed(_) => {
                let v: Vec<String> = Vec::new();
                assert(v@.map_values(|s: String| s@) =~= Seq::<Seq<char>>::empty());
                DocSearch::Done(Ok(v))
            },
            Listing::Read(es) => {
                proof {
                    assert forall|k: int| 0 <= k < es@.len() && #[trigger] es@[k] is Dir implies es@[k]->Dir_0
                        < self@.len() by {
                        assert(entry_at(self@, c as int, k) == es@[k]@);
                    }
                }
                if self.holds_docs(es) {
                    let v = vec![node.path.clone()];
                    assert(v@.map_values(|s: String| s@) =~= seq![node.path@]);
                    DocSearch::Done(Ok(v))
                } else {
                    let v: Vec<String> = Vec::new();
                    assert(v@.map_values(|s: String| s@) =~= Seq::<Seq<char>>::empty());
                    DocSearch::Done(Ok(v))
                }
            },
        }
    }

    /// The search below node `i`.
    fn walk_exec(&self, i: usize) -> (res: DocSearch)
        requires
            self.wf(),
            i < self@.len(),
        ensures
            res@ == walk(self@, i as int),
        decreases self@.len() - i,
    {
        let ghost t = self@;
        let ghost empty = WalkView::Found(Seq::<Seq<char>>::empty());
        match &self.nodes[i].listing {
            Listing::Unread => {
                let v = vec![i];
                assert(v@.map_values(|x: usize| x as int) =~= seq![i as int]);
                DocSearch::NeedListings(v)
            },
            Listing::Failed(m) => DocSearch::Done(Err(clone_failure(m))),
            Listing::Read(es) => {
                let v0: Vec<String> = Vec::new();
                assert(v0@.map_values(|s: String| s@) =~= Seq::<Seq<char>>::empty());
                let mut acc = DocSearch::Done(Ok(v0));
                let mut k: usize = 0;
                while k < es.len()
                    invariant
                        t == self@,
                        self.wf(),
                        i < t.len(),
                        t[i as int].listing == ListingView::Read(es@.map_values(|e: Listed| e@)),
                        k <= es@.len(),
                        !(acc@ is Failed),
                        walk(t, i as int) == walk_from(t, i as int, k as int, acc@),
                    decreases es@.len() - k,
                {
                    assert(entry_at(t, i as int, k as int) == es@[k as int]@);
                    let head = match &es[k] {
                        Listed::Failed(m) => DocSearch::Done(Err(clone_failure(m))),
                        Listed::File => {
                            let v: Vec<String> = Vec::new();
                            assert(v@.map_values(|s: String| s@) =~= Seq::<Seq<char>>::empty());
                            DocSearch::Done(Ok(v))
                        },
                        Listed::Dir(c) => {
                            let c = *c;
                            if is_named(&self.nodes[c].name, "target") {
                                self.target_exec(c)
                            } else {
                                self.walk_exec(c)
                            }
                        },
                    };
                    assert(listing_len(t, i as int) == es@.len());
                    assert(head@ == entry_outcome(t, i as int, k as int));
                    acc = combine_exec(acc, head);
                    if let DocSearch::Done(Err(_)) = &acc {
                        assert(walk_from(t, i as int, k + 1, acc@) == acc@);
                        return acc;
                    }
                    k = k + 1;
                }
                acc
            },
        }
    }
}

/// Whether an entry read from a directory is a directory.
pub open spec fn is_dir_read(e: EntryReadView) -> bool {
    match e {
        EntryReadView::Entry { is_dir, .. } => is_dir,
        EntryReadView::Failed(_) => false,
    }
}

/// How many of the entries `es` are directories.
pub open spec fn dir_count(es: Seq<EntryReadView>) -> nat
    decreases es.len(),
{
    if es.len() == 0 {
        0
    } else {
        dir_count(es.drop_last()) + if is_dir_read(es.last()) {
            1nat
        } else {
            0nat
        }
    }
}

/// How the entry `e` is kept in a listing whose directories get the nodes
/// from `child` on.
pub open spec fn listed_entry(e: EntryReadView, child: int) -> EntryView {
    match e {
        EntryReadView::Failed(m) => EntryView::Failed(m),
        EntryReadView::Entry { is_dir, .. } => if is_dir {
            EntryView::Dir(child)
        } else {
            EntryView::File
        },
    }
}

/// The listing kept for the entries `es`: the directories among them get the
/// nodes `base`, `base + 1`, ... in order.
pub open spec fn listed_view(es: Seq<EntryReadView>, base: int) -> Seq<EntryView> {
    Seq::new(es.len(), |k: int| listed_entry(es[k], base + dir_count(es.take(k))))
}

/// The nodes made for the directories among `es`, read in the directory `parent`.
pub open spec fn child_nodes(parent: Seq<char>, es: Seq<EntryReadView>) -> Seq<NodeView>
    decreases es.len(),
{
    if es.len() == 0 {
        Seq::empty()
    } else {
        let rest = child_nodes(parent, es.drop_last());
        match es.last() {
            EntryReadView::Entry { name, is_dir } => if is_dir {
                rest.push(NodeView { path: spec_push(parent, name), name, listing: ListingView::Unread })
            } else {
                rest
            },
            EntryReadView::Failed(_) => rest,
        }
    }
}

/// The tree `t` once the listing of node `i` has been read with outcome `read`:
/// the node keeps the listing (or the failure) and every directory in it becomes
/// a new unread node at the end of the tree.
pub open spec fn recorded(t: Seq<NodeView>, i: int, read: Result<Seq<EntryReadView>, FailureView>) -> Seq<NodeView> {
    match read {
        Err(m) => t.update(i, NodeView { path: t[i].path, name: t[i].name, listing: ListingView::Failed(m) }),
        Ok(es) => t.update(
            i,
            NodeView { path: t[i].path, name: t[i].name, listing: ListingView::Read(listed_view(es, t.len() as int)) },
        ) + child_nodes(t[i].path, es),
    }
}

/// The model of what reading a directory gave.
pub open spec fn read_view(read: Result<Vec<DirEntryRead>, IoFailure>) -> Result<Seq<EntryReadView>, FailureView> {
    match read {
        Ok(es) => Ok(es@.map_values(|e: DirEntryRead| e@)),
        Err(m) => Err(m@),
    }
}

/// How many entries reading a directory gave.
pub open spec fn read_len(read: Result<Vec<DirEntryRead>, IoFailure>) -> int {
    match read {
        Ok(es) => es@.len() as int,
        Err(_) => 0,
    }
}

/// Every node made for a listing starts unread.
proof fn lemma_child_nodes_unread(parent: Seq<char>, es: Seq<EntryReadView>, n: int)
    requires
        0 <= n < child_nodes(parent, es).len(),
    ensures
        child_nodes(parent, es)[n].listing is Unread,
    decreases es.len(),
{
    if es.len() > 0 {
        let rest = child_nodes(parent, es.drop_last());
        if n < rest.len() {
            lemma_child_nodes_unread(parent, es.drop_last(), n);
        }
    }
}

impl DocTree {
    /// A search that starts in the directory `root`, not read yet.
    pub fn new(root: String) -> (res: DocTree)
        ensures
            tree_wf(res@),
            res@ == seq![NodeView { path: root@, name: Seq::empty(), listing: ListingView::Unread }],
    {
        let node = DirNode { path: root, name: String::new(), listing: Listing::Unread };
        let nodes = vec![node];
        let res = DocTree { nodes };
        assert(res@ =~= seq![NodeView { path: root@, name: Seq::empty(), listing: ListingView::Unread }]);
        res
    }

    /// How many directories the tree holds.
    pub fn len(&self) -> (res: usize)
        ensures
            res == self@.len(),
    {
        self.nodes.len()
    }

    /// The path of node `i`.
    pub fn node_path(&self, i: usize) -> (res: &String)
        requires
            i < self@.len(),
        ensures
            res@ == self@[i as int].path,
    {
        &self.nodes[i].path
    }

    /// Whether node `i` still waits for its listing.
    pub fn is_unread(&self, i: usize) -> (res: bool)
        requires
            i < self@.len(),
        ensures
            res == (self@[i as int].listing is Unread),
    {
        match &self.nodes[i].listing {
            Listing::Unread => true,
            _ => false,
        }
    }

    /// Keeps what reading the directory of node `i` gave: its entries, each
    /// directory among them becoming a new node, or the failure.
    pub fn record(&mut self, i: usize, read: Result<Vec<DirEntryRead>, IoFailure>)
        requires
            i < old(self)@.len(),
            old(self)@[i as int].listing is Unread,
            old(self)@.len() + read_len(read) <= usize::MAX,
        ensures
            tree_wf(final(self)@),
            final(self)@ == recorded(old(self)@, i as int, read_view(read)),
    {
        proof {
            use_type_invariant(&*self);
        }
        let mut nodes = vec![DirNode { path: String::new(), name: String::new(), listing: Listing::Unread }];
        assert(tree_wf(nodes_view(nodes@))) by {
            assert(nodes_view(nodes@)[0].listing is Unread);
        }
        std::mem::swap(&mut nodes, &mut self.nodes);
        self.nodes = with_listing(nodes, i, read);
    }
}

/// The nodes `nodes` once the listing of node `i` has been read with outcome `read`.
fn with_listing(nodes: Vec<DirNode>, i: usize, read: Result<Vec<DirEntryRead>, IoFailure>) -> (res: Vec<DirNode>)
    requires
        tree_wf(nodes_view(nodes@)),
        i < nodes@.len(),
        nodes_view(nodes@)[i as int].listing is Unread,
        nodes@.len() + read_len(read) <= usize::MAX,
    ensures
        tree_wf(nodes_view(res@)),
        nodes_view(res@) == recorded(nodes_view(nodes@), i as int, read_view(read)),
{
    let mut nodes = nodes;
        let ghost t = nodes_view(nodes@);
        let path = nodes[i].path.clone();
        let name = nodes[i].name.clone();
        match read {
            Err(m) => {
                nodes.set(i, DirNode { path, name, listing: Listing::Failed(m) });
                assert(nodes_view(nodes@) =~= recorded(t, i as int, read_view(read)));
                assert forall|j: int, k: int|
                    0 <= j < nodes_view(nodes@).len() && 0 <= k < listing_len(nodes_view(nodes@), j) && #[trigger] entry_at(
                        nodes_view(nodes@),
                        j,
                        k,
                    ) is Dir implies {
                    let c = entry_at(nodes_view(nodes@), j, k)->Dir_0;
                    &&& j < c < nodes_view(nodes@).len()
                    &&& nodes_view(nodes@)[c].path == spec_push(nodes_view(nodes@)[j].path, nodes_view(nodes@)[c].name)
                } by {
                    assert(entry_at(nodes_view(nodes@), j, k) == entry_at(t, j, k));
                }
            },
            Ok(es) => {
                let ghost ev = es@.map_values(|e: DirEntryRead| e@);
                let base = nodes.len();
                let mut listed: Vec<Listed> = Vec::new();
                let mut children: Vec<DirNode> = Vec::new();
                let mut k: usize = 0;
                while k < es.len()
                    invariant
                        ev == es@.map_values(|e: DirEntryRead| e@),
                        base == t.len(),
                        i < t.len(),
                        base + es@.len() <= usize::MAX,
                        path@ == t[i as int].path,
                        k <= es@.len(),
                        listed@.len() == k,
                        children@.len() == dir_count(ev.take(k as int)),
                        children@.len() <= k,
                        forall|j: int|
                            0 <= j < k ==> #[trigger] listed@[j]@ == listed_entry(
                                ev[j],
                                base + dir_count(ev.take(j)),
                            ),
                        children@.map_values(|n: DirNode| n@) == child_nodes(t[i as int].path, ev.take(k as int)),
                        forall|j: int|
                            0 <= j < k && #[trigger] listed@[j] is Dir ==> {
                                let c = listed@[j]->Dir_0;
                                &&& base <= c < base + children@.len()
                                &&& children@[c - base]@.path == spec_push(t[i as int].path, children@[c - base]@.name)
                            },
                    decreases es@.len() - k,
                {
                    let ghost before = ev.take(k as int);
                    assert(ev.take(k + 1).drop_last() =~= before);
                    match &es[k] {
                        DirEntryRead::Failed(m) => {
                            listed.push(Listed::Failed(clone_failure(m)));
                        },
                        DirEntryRead::Entry { name, is_dir } => {
                            if *is_dir {
                                let c = base + children.len();
                                listed.push(Listed::Dir(c));
                                let child_path = push_path(&path, name.as_str());
                                children.push(DirNode { path: child_path, name: name.clone(), listing: Listing::Unread });
                            } else {
                                listed.push(Listed::File);
                            }
                        },
                    }
                    assert(children@.map_values(|n: DirNode| n@) =~= child_nodes(t[i as int].path, ev.take(k + 1)));
                    k = k + 1;
                }
                assert(ev.take(es@.len() as int) =~= ev);
                let ghost listed0 = listed@;
                let ghost children0 = children@;
                nodes.set(i, DirNode { path, name, listing: Listing::Read(listed) });
                nodes.append(&mut children);
                assert(listed0.map_values(|e: Listed| e@) =~= listed_view(ev, t.len() as int));
                assert(nodes_view(nodes@) =~= recorded(t, i as int, read_view(read)));
                assert forall|j: int, k: int|
                    0 <= j < nodes_view(nodes@).len() && 0 <= k < listing_len(nodes_view(nodes@), j) && #[trigger] entry_at(
                        nodes_view(nodes@),
                        j,
                        k,
                    ) is Dir implies {
                    let c = entry_at(nodes_view(nodes@), j, k)->Dir_0;
                    &&& j < c < nodes_view(nodes@).len()
                    &&& nodes_view(nodes@)[c].path == spec_push(nodes_view(nodes@)[j].path, nodes_view(nodes@)[c].name)
                } by {
                    assert(nodes_view(nodes@) == recorded(t, i as int, read_view(read)));
                    if j == i {
                        assert(nodes_view(nodes@)[j].listing == ListingView::Read(listed0.map_values(|e: Listed| e@)));
                        assert(entry_at(nodes_view(nodes@), j, k) == listed0[k]@);
                        assert(listed0[k] is Dir);
                        let c = listed0[k]->Dir_0 as int;
                        assert(nodes_view(nodes@)[c] == children0[c - base]@);
                    } else if j < base {
                        assert(nodes_view(nodes@)[j] == t[j]);
                        assert(entry_at(nodes_view(nodes@), j, k) == entry_at(t, j, k));
                        let c = entry_at(t, j, k)->Dir_0;
                        assert(nodes_view(nodes@)[c].path == t[c].path);
                        assert(nodes_view(nodes@)[c].name == t[c].name);
                    } else {
                        assert(nodes_view(nodes@)[j] == children0[j - base]@);
                        assert(child_nodes(t[i as int].path, ev)[j - base].listing is Unread) by {
                            lemma_child_nodes_unread(t[i as int].path, ev, j - base);
                        }
                    }
                }
            },
        }
        nodes
    }

/// Searches the directories of `tree` for compiled documentation, depth first
/// from node 0: a directory named `target` is taken when it holds a directory
/// named `doc`, any other directory is searched in turn, and the first listing
/// or entry that could not be read ends the search with its error. Where a
/// directory has not been read yet, the answer names the directories to read.
pub fn find_doc_entries(tree: &DocTree) -> (res: DocSearch)
    ensures
        res@ == walk(tree@, 0),
{
    proof {
        use_type_invariant(tree);
    }
    tree.walk_exec(0)
}

} // verus!
