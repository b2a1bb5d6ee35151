use vstd::prelude::*;

verus! {

/// One component of a path, in the order `Path::components` gives them. A
/// name that is not valid Unicode is kept as `Normal(None)`.
pub enum PathPart {
    /// A Windows drive or share prefix.
    Prefix,
    /// The root, as in a path that starts with a separator.
    RootDir,
    /// A `.` at the start of a path.
    CurDir,
    /// A `..`.
    ParentDir,
    /// A name, when it is valid Unicode.
    Normal(Option<String>),
}

/// The model of a [`PathPart`].
pub enum PartView {
    Prefix,
    RootDir,
    CurDir,
    ParentDir,
    Normal(Option<Seq<char>>),
}

impl View for PathPart {
    type V = PartView;

    open spec fn view(&self) -> PartView {
        match self {
            PathPart::Prefix => PartView::Prefix,
            PathPart::RootDir => PartView::RootDir,
            PathPart::CurDir => PartView::CurDir,
            PathPart::ParentDir => PartView::ParentDir,
            PathPart::Normal(Some(n)) => PartView::Normal(Some(n@)),
            PathPart::Normal(None) => PartView::Normal(None),
        }
    }
}

/// The models of the components of a path.
pub open spec fn parts_view(ps: Seq<PathPart>) -> Seq<PartView> {
    ps.map_values(|p: PathPart| p@)
}

/// The components of the parent of a path, as `Path::parent` gives it: the
/// path without its last component when that is a name, `.` or `..`; none
/// when the path is empty or ends in a root or prefix.
pub open spec fn parent_parts(ps: Seq<PartView>) -> Option<Seq<PartView>> {
    if ps.len() > 0 && (ps.last() is Normal || ps.last() is CurDir || ps.last() is ParentDir) {
        Some(ps.drop_last())
    } else {
        None
    }
}

/// The last component of a path as text, as `Path::file_name` followed by
/// `OsStr::to_str` gives it: a name that is valid Unicode, else none.
pub open spec fn file_name_text(ps: Seq<PartView>) -> Option<Seq<char>> {
    if ps.len() > 0 {
        match ps.last() {
            PartView::Normal(n) => n,
            _ => None,
        }
    } else {
        None
    }
}

/// Whether a path ends with the components `target` and `doc`, as
/// `Path::ends_with("target/doc")` answers.
pub open spec fn ends_with_target_doc(ps: Seq<PartView>) -> bool {
    &&& ps.len() >= 2
    &&& ps[ps.len() - 2] == PartView::Normal(Some("target"@))
    &&& ps[ps.len() - 1] == PartView::Normal(Some("doc"@))
}

/// The name of the project whose `target/doc` directory has the components
/// `ps`: the file name of the parent of its parent, when it is valid Unicode.
pub open spec fn project_name(ps: Seq<PartView>) -> Option<Seq<char>> {
    match parent_parts(ps) {
        Some(target) => match parent_parts(target) {
            Some(root) => file_name_text(root),
            None => None,
        },
        None => None,
    }
}

/// Whether the component is the name `lit`.
fn part_is(p: &PathPart, lit: &str) -> (res: bool)
    ensures
        res == (p@ == PartView::Normal(Some(lit@))),
{
    match p {
        PathPart::Normal(Some(n)) => {
            let other = String::from_str(lit);
            *n == other
        },
        _ => false,
    }
}

/// Whether the path with components `parts` ends with `target/doc`.
pub fn ends_with_target_doc_exec(parts: &Vec<PathPart>) -> (res: bool)
    ensures
        res == ends_with_target_doc(parts_view(parts@)),
{
    let n = parts.len();
    n >= 2 && part_is(&parts[n - 2], "target") && part_is(&parts[n - 1], "doc")
}

/// Whether a component stands for a directory that has a parent.
fn has_parent_part(p: &PathPart) -> (res: bool)
    ensures
        res == (p@ is Normal || p@ is CurDir || p@ is ParentDir),
{
    match p {
        PathPart::Normal(_) | PathPart::CurDir | PathPart::ParentDir => true,
        _ => false,
    }
}

/// The name of the project whose `target/doc` directory has the components `parts`.
pub fn project_name_exec(parts: &Vec<PathPart>) -> (res: Option<String>)
    ensures
        res matches Some(n) ==> project_name(parts_view(parts@)) == Some(n@),
        res is None ==> project_name(parts_view(parts@)) is None,
{
    let ghost pv = parts_view(parts@);
    let n = parts.len();
    if n == 0 || !has_parent_part(&parts[n - 1]) {
        return None;
    }
    let ghost target = pv.drop_last();
    if n == 1 || !has_parent_part(&parts[n - 2]) {
        assert(target.len() == 0 || !(target.last() is Normal || target.last() is CurDir || target.last() is ParentDir));
        return None;
    }
    let ghost root = target.drop_last();
    assert(root.len() == n - 2);
    if n == 2 {
        return None;
    }
    assert(root.last() == pv[n - 3]);
    match &parts[n - 3] {
        PathPart::Normal(Some(name)) => Some(name.clone()),
        _ => None,
    }
}

} // verus!
