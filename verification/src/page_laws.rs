use vstd::prelude::*;
use crate::page::{
    crate_href, crate_item, crate_items, details_open, index_page, project_item, project_items, toolchain_item,
    PAGE_HEAD, PAGE_TAIL,
};
use crate::project::DocProjectView;

verus! {

/// `sub` occurs in `s`.
pub open spec fn occurs_in(sub: Seq<char>, s: Seq<char>) -> bool {
    exists|i: int| 0 <= i && i + sub.len() <= s.len() && #[trigger] s.subrange(i, i + sub.len()) == sub
}

/// What occurs in `b` occurs in `a + b + c`.
proof fn lemma_occurs_in_middle(sub: Seq<char>, a: Seq<char>, b: Seq<char>, c: Seq<char>)
    requires
        occurs_in(sub, b),
    ensures
        occurs_in(sub, a + b + c),
{
    let i = choose|i: int| 0 <= i && i + sub.len() <= b.len() && #[trigger] b.subrange(i, i + sub.len()) == sub;
    let s = a + b + c;
    let j = a.len() + i;
    assert(s.subrange(j, j + sub.len()) =~= b.subrange(i, i + sub.len()));
}

/// A sequence occurs in itself.
proof fn lemma_occurs_in_self(s: Seq<char>)
    ensures
        occurs_in(s, s),
{
    let z: int = 0;
    assert(s.subrange(z, z + s.len()) =~= s);
}

proof fn lemma_crate_items_hold(doc_url: Seq<char>, project: Seq<char>, crates: Seq<Seq<char>>, j: int)
    requires
        0 <= j < crates.len(),
    ensures
        occurs_in(crate_item(doc_url, project, crates[j]), crate_items(doc_url, project, crates)),
    decreases crates.len(),
{
    let item = crate_item(doc_url, project, crates[j]);
    let front = crate_items(doc_url, project, crates.drop_last());
    if j == crates.len() - 1 {
        lemma_occurs_in_self(item);
        lemma_occurs_in_middle(item, front, item, Seq::empty());
        assert(front + item + Seq::<char>::empty() =~= front + item);
    } else {
        lemma_crate_items_hold(doc_url, project, crates.drop_last(), j);
        let last = crate_item(doc_url, project, crates.last());
        lemma_occurs_in_middle(item, Seq::empty(), front, last);
        assert(Seq::<char>::empty() + front + last =~= front + last);
    }
}

proof fn lemma_project_items_hold(doc_url: Seq<char>, ps: Seq<DocProjectView>, i: int)
    requires
        0 <= i < ps.len(),
    ensures
        occurs_in(project_item(doc_url, ps[i]), project_items(doc_url, ps)),
    decreases ps.len(),
{
    let item = project_item(doc_url, ps[i]);
    let front = project_items(doc_url, ps.drop_last());
    if i == ps.len() - 1 {
        lemma_occurs_in_self(item);
        lemma_occurs_in_middle(item, front, item, Seq::empty());
        assert(front + item + Seq::<char>::empty() =~= front + item);
    } else {
        lemma_project_items_hold(doc_url, ps.drop_last(), i);
        let last = project_item(doc_url, ps.last());
        lemma_occurs_in_middle(item, Seq::empty(), front, last);
        assert(Seq::<char>::empty() + front + last =~= front + last);
    }
}

/// The index page has an entry for every project.
pub proof fn lemma_page_lists_every_project(
    has_toolchain: bool,
    toolchain_url: Seq<char>,
    doc_url: Seq<char>,
    ps: Seq<DocProjectView>,
    i: int,
)
    requires
        0 <= i < ps.len(),
    ensures
        occurs_in(project_item(doc_url, ps[i]), index_page(has_toolchain, toolchain_url, doc_url, ps)),
{
    let head = PAGE_HEAD@ + (if has_toolchain {
        toolchain_item(toolchain_url)
    } else {
        Seq::empty()
    });
    lemma_project_items_hold(doc_url, ps, i);
    lemma_occurs_in_middle(project_item(doc_url, ps[i]), head, project_items(doc_url, ps), PAGE_TAIL@);
}

/// The index page links to every crate of every project that has crates.
pub proof fn lemma_page_links_every_crate(
    has_toolchain: bool,
    toolchain_url: Seq<char>,
    doc_url: Seq<char>,
    ps: Seq<DocProjectView>,
    i: int,
    j: int,
)
    requires
        0 <= i < ps.len(),
        0 <= j < ps[i].crates.len(),
    ensures
        occurs_in(
            crate_item(doc_url, ps[i].name, ps[i].crates[j]),
            index_page(has_toolchain, toolchain_url, doc_url, ps),
        ),
{
    let p = ps[i];
    let item = crate_item(doc_url, p.name, p.crates[j]);
    let entry = project_item(doc_url, p);
    lemma_crate_items_hold(doc_url, p.name, p.crates, j);
    lemma_occurs_in_middle(item, details_open(p.name), crate_items(doc_url, p.name, p.crates), "</ul></details>"@);
    lemma_page_lists_every_project(has_toolchain, toolchain_url, doc_url, ps, i);
    let page = index_page(has_toolchain, toolchain_url, doc_url, ps);
    let a = choose|a: int| 0 <= a && a + entry.len() <= page.len() && #[trigger] page.subrange(a, a + entry.len()) == entry;
    let b = choose|b: int| 0 <= b && b + item.len() <= entry.len() && #[trigger] entry.subrange(b, b + item.len()) == item;
    assert(page.subrange(a + b, a + b + item.len()) =~= entry.subrange(b, b + item.len()));
}

/// When the toolchain's documentation was found, the index page links to it.
pub proof fn lemma_page_links_toolchain(toolchain_url: Seq<char>, doc_url: Seq<char>, ps: Seq<DocProjectView>)
    ensures
        occurs_in(toolchain_item(toolchain_url), index_page(true, toolchain_url, doc_url, ps)),
{
    let item = toolchain_item(toolchain_url);
    lemma_occurs_in_self(item);
    lemma_occurs_in_middle(item, PAGE_HEAD@, item, project_items(doc_url, ps) + PAGE_TAIL@);
    assert(PAGE_HEAD@ + item + (project_items(doc_url, ps) + PAGE_TAIL@) =~= index_page(
        true,
        toolchain_url,
        doc_url,
        ps,
    ));
}

/// Every crate link of the page points below the route under which the
/// server mounts the project's documentation.
pub proof fn lemma_crate_links_under_project_route(doc_url: Seq<char>, project: Seq<char>, krate: Seq<char>)
    ensures
        crate_href(doc_url, project, krate) == (doc_url + "/"@ + project) + ("/"@ + krate + "/index.html"@),
{
    assert(crate_href(doc_url, project, krate) =~= (doc_url + "/"@ + project) + ("/"@ + krate + "/index.html"@));
}

/// Without the toolchain's documentation the page does not depend on the
/// toolchain's route at all: it holds the head, the project entries and the
/// end, and nothing else.
pub proof fn lemma_page_without_toolchain(u1: Seq<char>, u2: Seq<char>, doc_url: Seq<char>, ps: Seq<DocProjectView>)
    ensures
        index_page(false, u1, doc_url, ps) == index_page(false, u2, doc_url, ps),
        index_page(false, u1, doc_url, ps) == PAGE_HEAD@ + project_items(doc_url, ps) + PAGE_TAIL@,
{
    assert(PAGE_HEAD@ + Seq::<char>::empty() =~= PAGE_HEAD@);
}

/// The page with the toolchain's documentation is the page without it, with
/// the toolchain's entry put right after the head.
pub proof fn lemma_toolchain_entry_after_head(toolchain_url: Seq<char>, doc_url: Seq<char>, ps: Seq<DocProjectView>)
    ensures
        index_page(false, toolchain_url, doc_url, ps).take(PAGE_HEAD@.len() as int) == PAGE_HEAD@,
        index_page(true, toolchain_url, doc_url, ps) == PAGE_HEAD@ + toolchain_item(toolchain_url) + index_page(
            false,
            toolchain_url,
            doc_url,
            ps,
        ).skip(PAGE_HEAD@.len() as int),
        index_page(true, toolchain_url, doc_url, ps).len() == index_page(false, toolchain_url, doc_url, ps).len()
            + toolchain_item(toolchain_url).len(),
{
    let rest = project_items(doc_url, ps) + PAGE_TAIL@;
    let without = index_page(false, toolchain_url, doc_url, ps);
    assert(without =~= PAGE_HEAD@ + rest);
    assert(without.take(PAGE_HEAD@.len() as int) =~= PAGE_HEAD@);
    assert(without.skip(PAGE_HEAD@.len() as int) =~= rest);
    assert(index_page(true, toolchain_url, doc_url, ps) =~= PAGE_HEAD@ + toolchain_item(toolchain_url) + rest);
}

} // verus!
