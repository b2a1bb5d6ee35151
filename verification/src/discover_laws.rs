use vstd::prelude::*;
use crate::discover::{listed_order, lowercase_keyed, lowercase_name, projects_keyed, self_keyed, sorted_crates, crate_names, CrateDirEntry};
use crate::order::{items_of, seq_lt, stable_sort};
use crate::order_laws::{
    keys_distinct, lemma_map_keeps_permutation, lemma_stable_sort_determined, lemma_stable_sort_permutes,
    lemma_stable_sort_strict,
    lemma_stable_sort_keeps_property, lemma_stable_sort_sorted,
};
use crate::project::DocProject;
use crate::text::{ascii_lower, is_ascii_text};

verus! {

/// Projects are listed by name ignoring case: no project's lowercased name
/// comes before that of a project listed earlier.
pub proof fn lemma_projects_listed_by_name(ps: Seq<DocProject>)
    ensures
        forall|i: int, j: int|
            0 <= i < j < listed_order(ps).len() ==> !seq_lt(
                lowercase_name((#[trigger] listed_order(ps)[j]).name@),
                lowercase_name((#[trigger] listed_order(ps)[i]).name@),
            ),
{
    let keyed = projects_keyed(ps);
    let sorted = stable_sort(keyed);
    let p = |x: (Seq<char>, DocProject)| x.0 == lowercase_name(x.1.name@);
    assert forall|i: int| 0 <= i < keyed.len() implies p(#[trigger] keyed[i]) by {}
    lemma_stable_sort_keeps_property(keyed, p);
    lemma_stable_sort_sorted(keyed);
    assert forall|i: int, j: int| 0 <= i < j < listed_order(ps).len() implies !seq_lt(
        lowercase_name((#[trigger] listed_order(ps)[j]).name@),
        lowercase_name((#[trigger] listed_order(ps)[i]).name@),
    ) by {
        assert(p(sorted[i]) && p(sorted[j]));
        assert(listed_order(ps)[i] == sorted[i].1);
        assert(listed_order(ps)[j] == sorted[j].1);
    }
}

/// The crates of a project are listed by name.
pub proof fn lemma_crates_listed_by_name(es: Seq<CrateDirEntry>)
    ensures
        forall|i: int, j: int|
            0 <= i < j < sorted_crates(es).len() ==> !seq_lt(
                (#[trigger] sorted_crates(es)[j])@,
                (#[trigger] sorted_crates(es)[i])@,
            ),
{
    let keyed = self_keyed(crate_names(es));
    let sorted = stable_sort(keyed);
    let p = |x: (Seq<char>, String)| x.0 == x.1@;
    assert forall|i: int| 0 <= i < keyed.len() implies p(#[trigger] keyed[i]) by {}
    lemma_stable_sort_keeps_property(keyed, p);
    lemma_stable_sort_sorted(keyed);
    assert forall|i: int, j: int| 0 <= i < j < sorted_crates(es).len() implies !seq_lt(
        (#[trigger] sorted_crates(es)[j])@,
        (#[trigger] sorted_crates(es)[i])@,
    ) by {
        assert(p(sorted[i]) && p(sorted[j]));
    }
}

/// When no two crate directories share a name, the crates are listed in
/// strictly ascending order of their names.
pub proof fn lemma_crates_strictly_ascending(es: Seq<CrateDirEntry>)
    requires
        forall|i: int, j: int|
            0 <= i < j < crate_names(es).len() ==> (#[trigger] crate_names(es)[i])@ != (
            #[trigger] crate_names(es)[j])@,
    ensures
        forall|i: int, j: int|
            0 <= i < j < sorted_crates(es).len() ==> seq_lt(
                (#[trigger] sorted_crates(es)[i])@,
                (#[trigger] sorted_crates(es)[j])@,
            ),
{
    let keyed = self_keyed(crate_names(es));
    let sorted = stable_sort(keyed);
    let p = |x: (Seq<char>, String)| x.0 == x.1@;
    assert forall|i: int| 0 <= i < keyed.len() implies p(#[trigger] keyed[i]) by {}
    assert forall|i: int, j: int| 0 <= i < j < keyed.len() implies #[trigger] keyed[i].0 != #[trigger] keyed[j].0 by {
        assert(keyed[i].0 == crate_names(es)[i]@);
        assert(keyed[j].0 == crate_names(es)[j]@);
    }
    lemma_stable_sort_keeps_property(keyed, p);
    lemma_stable_sort_strict(keyed);
    assert forall|i: int, j: int| 0 <= i < j < sorted_crates(es).len() implies seq_lt(
        (#[trigger] sorted_crates(es)[i])@,
        (#[trigger] sorted_crates(es)[j])@,
    ) by {
        assert(p(sorted[i]) && p(sorted[j]));
    }
}

/// Listing the same projects in another order gives the same list, as long
/// as no two project names agree in lower case: whatever order the directory
/// walk meets the projects in, the index shows them in one order.
pub proof fn lemma_listing_ignores_walk_order(ps1: Seq<DocProject>, ps2: Seq<DocProject>)
    requires
        ps1.to_multiset() == ps2.to_multiset(),
        forall|i: int, j: int|
            0 <= i < j < ps1.len() ==> lowercase_name((#[trigger] ps1[i]).name@) != lowercase_name(
                (#[trigger] ps1[j]).name@,
            ),
    ensures
        listed_order(ps1) == listed_order(ps2),
{
    lemma_map_keeps_permutation(ps1, ps2, lowercase_keyed());
    let k1 = projects_keyed(ps1);
    assert forall|i: int, j: int| 0 <= i < j < k1.len() implies #[trigger] k1[i].0 != #[trigger] k1[j].0 by {
        assert(k1[i].0 == lowercase_name(ps1[i].name@));
        assert(k1[j].0 == lowercase_name(ps1[j].name@));
    }
    assert(keys_distinct(k1));
    lemma_stable_sort_determined(k1, projects_keyed(ps2));
}

/// An entry documents a crate: it is a directory, it holds `index.html`, and
/// its name is valid Unicode.
pub open spec fn documents_crate(e: CrateDirEntry) -> bool {
    e.is_dir && e.has_index && e.name is Some
}

proof fn lemma_crate_names_filter(es: Seq<CrateDirEntry>)
    ensures
        crate_names(es) == es.filter(|e: CrateDirEntry| documents_crate(e)).map_values(|e: CrateDirEntry| e.name->0),
    decreases es.len(),
{
    let pred = |e: CrateDirEntry| documents_crate(e);
    let name = |e: CrateDirEntry| e.name->0;
    if es.len() == 0 {
        reveal(Seq::filter);
        assert(es.filter(pred).map_values(name) =~= Seq::<String>::empty());
    } else {
        lemma_crate_names_filter(es.drop_last());
        assert(es.drop_last().push(es.last()) =~= es);
        es.drop_last().lemma_filter_push(es.last(), pred);
        let f = es.drop_last().filter(pred);
        if pred(es.last()) {
            assert(f.push(es.last()).map_values(name) =~= f.map_values(name).push(es.last().name->0));
        }
    }
}

/// The crates listed for a `target/doc` directory are exactly the names of its
/// entries that are directories holding `index.html` with a name that is valid
/// Unicode, each as often as it occurs: nothing else is listed and none of
/// them is left out.
pub proof fn lemma_crates_are_the_documented_dirs(es: Seq<CrateDirEntry>)
    ensures
        sorted_crates(es).to_multiset() == es.filter(|e: CrateDirEntry| e.is_dir && e.has_index && e.name is Some).map_values(
            |e: CrateDirEntry| e.name->0,
        ).to_multiset(),
{
    lemma_crate_names_filter(es);
    let names = crate_names(es);
    let keyed = self_keyed(names);
    lemma_stable_sort_permutes(keyed);
    let second = |p: (Seq<char>, String)| p.1;
    lemma_map_keeps_permutation(stable_sort(keyed), keyed, second);
    assert(items_of(stable_sort(keyed)) =~= stable_sort(keyed).map_values(second));
    assert(keyed.map_values(second) =~= names);
    assert(es.filter(|e: CrateDirEntry| e.is_dir && e.has_index && e.name is Some) =~= es.filter(
        |e: CrateDirEntry| documents_crate(e),
    )) by {
        assert((|e: CrateDirEntry| e.is_dir && e.has_index && e.name is Some) =~= (|e: CrateDirEntry|
            documents_crate(e)));
    }
}

/// Projects whose names are ASCII are listed by their whole names in ASCII
/// lower case: no project's lowercased name comes before that of a project
/// listed earlier.
pub proof fn lemma_ascii_projects_listed_by_whole_name(ps: Seq<DocProject>)
    requires
        forall|i: int| 0 <= i < ps.len() ==> is_ascii_text(#[trigger] ps[i].name@),
    ensures
        forall|i: int, j: int|
            0 <= i < j < listed_order(ps).len() ==> !seq_lt(
                ascii_lower((#[trigger] listed_order(ps)[j]).name@),
                ascii_lower((#[trigger] listed_order(ps)[i]).name@),
            ),
{
    let keyed = projects_keyed(ps);
    let sorted = stable_sort(keyed);
    let p = |x: (Seq<char>, DocProject)| x.0 == ascii_lower(x.1.name@);
    assert forall|i: int| 0 <= i < keyed.len() implies p(#[trigger] keyed[i]) by {
        assert(is_ascii_text(ps[i].name@));
    }
    lemma_stable_sort_keeps_property(keyed, p);
    lemma_stable_sort_sorted(keyed);
    assert forall|i: int, j: int| 0 <= i < j < listed_order(ps).len() implies !seq_lt(
        ascii_lower((#[trigger] listed_order(ps)[j]).name@),
        ascii_lower((#[trigger] listed_order(ps)[i]).name@),
    ) by {
        assert(p(sorted[i]) && p(sorted[j]));
        assert(listed_order(ps)[i] == sorted[i].1);
        assert(listed_order(ps)[j] == sorted[j].1);
    }
}

} // verus!
