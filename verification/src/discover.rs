use vstd::prelude::*;
use crate::order::{chars_of, items_of, sort_by_keys, stable_sort};
use crate::project::{DocProject, DocProjectView};
use crate::components::{
    ends_with_target_doc, ends_with_target_doc_exec, parts_view, project_name, project_name_exec,
    PathPart,
};
use crate::stdpath::{str_lowercase, to_lowercase};
use crate::text::{ascii_lower, ascii_only, is_ascii_text, to_ascii_lower};

verus! {

/// An entry of a `target/doc` directory: its name when it is valid Unicode,
/// whether it is a directory, and whether it holds an `index.html` file.
pub struct CrateDirEntry {
    pub name: Option<String>,
    pub is_dir: bool,
    pub has_index: bool,
}

/// Whether a directory entry met while scanning, whose path has the
/// components `parts`, is the `target/doc` directory of a project.
pub fn is_doc_dir(parts: &Vec<PathPart>, is_dir: bool) -> (res: bool)
    ensures
        res == (is_dir && ends_with_target_doc(parts_view(parts@))),
{
    is_dir && ends_with_target_doc_exec(parts)
}

/// Whether the entry is the documentation of a crate: a directory with an
/// `index.html` and a readable name.
pub open spec fn is_crate_entry(e: CrateDirEntry) -> bool {
    e.is_dir && e.has_index && e.name is Some
}

/// The names of the crate directories among `es`, in the order met.
pub open spec fn crate_names(es: Seq<CrateDirEntry>) -> Seq<String>
    decreases es.len(),
{
    if es.len() == 0 {
        Seq::empty()
    } else if is_crate_entry(es.last()) {
        crate_names(es.drop_last()).push(es.last().name->0)
    } else {
        crate_names(es.drop_last())
    }
}

/// Names keyed by themselves, for sorting in the order of `str`.
pub open spec fn self_keyed(ns: Seq<String>) -> Seq<(Seq<char>, String)> {
    ns.map_values(|s: String| (s@, s))
}

/// The crates listed for a `target/doc` directory whose entries are `es`:
/// the crate directories, sorted by name.
pub open spec fn sorted_crates(es: Seq<CrateDirEntry>) -> Seq<String> {
    items_of(stable_sort(self_keyed(crate_names(es))))
}

/// The crate names of a `target/doc` directory, sorted.
pub fn crates_in(entries: &Vec<CrateDirEntry>) -> (res: Vec<String>)
    ensures
        res@ == sorted_crates(entries@),
{
    let mut keyed: Vec<(Vec<char>, String)> = Vec::new();
    let mut k: usize = 0;
    while k < entries.len()
        invariant
            k <= entries@.len(),
            crate::order::key_views(keyed@) == self_keyed(crate_names(entries@.take(k as int))),
        decreases entries@.len() - k,
    {
        let e = &entries[k];
        let ghost before = crate_names(entries@.take(k as int));
        assert(entries@.take(k + 1).drop_last() =~= entries@.take(k as int));
        assert(entries@.take(k + 1).last() == entries@[k as int]);
        if e.is_dir && e.has_index {
            match &e.name {
                Some(n) => {
                    let key = chars_of(n.as_str());
                    keyed.push((key, n.clone()));
                    assert(crate_names(entries@.take(k + 1)) == before.push(*n));
                    assert(self_keyed(before.push(*n)) =~= self_keyed(before).push((n@, *n)));
                },
                None => {
                    assert(crate_names(entries@.take(k + 1)) == before);
                },
            }
        } else {
            assert(crate_names(entries@.take(k + 1)) == before);
        }
        assert(crate::order::key_views(keyed@) =~= self_keyed(crate_names(entries@.take(k + 1))));
        k = k + 1;
    }
    assert(entries@.take(entries@.len() as int) =~= entries@);
    sort_by_keys(keyed)
}

/// The project documented in the `target/doc` directory whose path reads
/// `doc_path` and has the components `parts`, and whose entries are `entries`
/// (none when the directory could not be read): none when the path does not
/// end in `target/doc`, or when the directory holding `target` has no name
/// that is valid Unicode.
pub fn doc_project(doc_path: &String, parts: &Vec<PathPart>, entries: Option<Vec<CrateDirEntry>>) -> (res: Option<
    DocProject,
>)
    ensures
        res is None <==> (!ends_with_target_doc(parts_view(parts@)) || project_name(parts_view(parts@)) is None),
        res matches Some(p) ==> p@ == (DocProjectView {
            name: project_name(parts_view(parts@))->0,
            doc_path: doc_path@,
            crates: match entries {
                Some(es) => sorted_crates(es@).map_values(|c: String| c@),
                None => Seq::empty(),
            },
        }),
{
    if !ends_with_target_doc_exec(parts) {
        return None;
    }
    let name = match project_name_exec(parts) {
        Some(n) => n,
        None => return None,
    };
    let crates = match &entries {
        Some(es) => crates_in(es),
        None => Vec::new(),
    };
    let p = DocProject { name, doc_path: doc_path.clone(), crates };
    proof {
        let want = match entries {
            Some(es) => sorted_crates(es@).map_values(|c: String| c@),
            None => Seq::<Seq<char>>::empty(),
        };
        assert(p@.crates =~= want);
    }
    Some(p)
}

/// A name in lower case, as `str::to_lowercase` gives it: for a name made of
/// ASCII characters only, its ASCII lowercase form; for any other name, the
/// result of `str::to_lowercase`.
pub open spec fn lowercase_name(name: Seq<char>) -> Seq<char> {
    if is_ascii_text(name) {
        ascii_lower(name)
    } else {
        str_lowercase(name)
    }
}

/// A project keyed by its name in lower case.
pub open spec fn lowercase_keyed() -> spec_fn(DocProject) -> (Seq<char>, DocProject) {
    |p: DocProject| (lowercase_name(p.name@), p)
}

/// The characters of `name` in lower case.
fn lowercase_key(name: &String) -> (res: Vec<char>)
    ensures
        res@ == lowercase_name(name@),
{
    let chars = chars_of(name.as_str());
    if ascii_only(&chars) {
        to_ascii_lower(&chars)
    } else {
        let lower = to_lowercase(name.as_str());
        chars_of(lower.as_str())
    }
}

/// Projects keyed by their names in lower case.
pub open spec fn projects_keyed(ps: Seq<DocProject>) -> Seq<(Seq<char>, DocProject)> {
    ps.map_values(lowercase_keyed())
}

/// The projects in the order they are listed: by name, ignoring case, projects
/// whose names agree in lower case keeping the order they came in.
pub open spec fn listed_order(ps: Seq<DocProject>) -> Seq<DocProject> {
    items_of(stable_sort(projects_keyed(ps)))
}

/// Sorts the projects by name, ignoring case, keeping the order of projects
/// whose names agree in lower case.
pub fn sort_projects(projects: Vec<DocProject>) -> (res: Vec<DocProject>)
    ensures
        res@ == listed_order(projects@),
{
    let ghost ps = projects@;
    let mut rest = projects;
    let mut keyed: Vec<(Vec<char>, DocProject)> = Vec::new();
    let n = rest.len();
    let mut k: usize = 0;
    while k < n
        invariant
            n == ps.len(),
            k <= n,
            rest@ == ps.skip(k as int),
            crate::order::key_views(keyed@) == projects_keyed(ps.take(k as int)),
        decreases n - k,
    {
        let p = rest.remove(0);
        assert(p == ps[k as int]);
        let key = lowercase_key(&p.name);
        keyed.push((key, p));
        assert(rest@ =~= ps.skip(k + 1));
        assert(ps.take(k + 1) =~= ps.take(k as int).push(p));
        assert(projects_keyed(ps.take(k as int).push(p)) =~= projects_keyed(ps.take(k as int)).push(
            (lowercase_name(p.name@), p),
        ));
        assert(crate::order::key_views(keyed@) =~= projects_keyed(ps.take(k + 1)));
        k = k + 1;
    }
    assert(ps.take(n as int) =~= ps);
    sort_by_keys(keyed)
}

} // verus!
