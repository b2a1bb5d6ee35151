use vstd::prelude::*;

verus! {

/// What `str::to_lowercase` gives for `s`.
pub uninterp spec fn str_lowercase(s: Seq<char>) -> Seq<char>;

/// What `Path::parent` gives for the path `path`.
pub uninterp spec fn path_parent(path: Seq<char>) -> Option<Seq<char>>;

/// Calls `str::to_lowercase`; its result, the lowercase form of `s` by
/// Unicode's rules, is named [`str_lowercase`] and not described further.
#[verifier::external_body]
pub(crate) fn to_lowercase(s: &str) -> (res: String)
    ensures
        res@ == str_lowercase(s@),
{
    s.to_lowercase()
}

/// Calls `Path::parent`: the path without its last component, or none for a
/// path that ends in a root or is empty. The result is named [`path_parent`]
/// and not described further.
#[verifier::external_body]
pub(crate) fn parent(path: &str) -> (res: Option<String>)
    ensures
        res matches Some(p) ==> path_parent(path@) == Some(p@),
        res is None ==> path_parent(path@) is None,
{
    match std::path::Path::new(path).parent() {
        Some(p) => Some(p.to_string_lossy().into_owned()),
        None => None,
    }
}

} // verus!
