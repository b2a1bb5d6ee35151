use vstd::prelude::*;

verus! {

/// A project whose compiled documentation was found: its name, the `target/doc`
/// directory that holds the documentation, and the crates documented there.
#[derive(Debug, Clone)]
pub struct DocProject {
    pub name: String,
    pub doc_path: String,
    pub crates: Vec<String>,
}

/// The model of a [`DocProject`].
pub struct DocProjectView {
    pub name: Seq<char>,
    pub doc_path: Seq<char>,
    pub crates: Seq<Seq<char>>,
}

impl View for DocProject {
    type V = DocProjectView;

    open spec fn view(&self) -> DocProjectView {
        DocProjectView {
            name: self.name@,
            doc_path: self.doc_path@,
            crates: self.crates@.map_values(|c: String| c@),
        }
    }
}

/// The models of a sequence of projects.
pub open spec fn projects_view(ps: Seq<DocProject>) -> Seq<DocProjectView> {
    ps.map_values(|p: DocProject| p@)
}

} // verus!
