use vstd::prelude::*;
use crate::project::{projects_view, DocProject, DocProjectView};

verus! {

/// Route under which the toolchain's own documentation is served.
pub const TOOLCHAIN_URL: &'static str = "/toolchain_doc/index.html";

/// Route under which the directory of the toolchain's documentation is mounted.
pub const TOOLCHAIN_ROOT_URL: &'static str = "/toolchain_doc";

/// Route under which the documentation of every project found is mounted.
pub const DOC_URL: &'static str = "/doc";

/// The start of the index page, up to the opening of its list.
pub const PAGE_HEAD: &'static str = r#"
        <!DOCTYPE html>
        <html lang="en">
        <head>
            <meta charset="UTF-8">
            <title>Local Documentation Hub</title>
            <style>
                body { font-family: system-ui, sans-serif; margin: 40px; background: #1f1f23; color: #e1e1e6; }
                h1 { color: #ff8c00; border-bottom: 1px solid #3a3a40; padding-bottom: 10px; }
                ul { list-style: none; padding: 0; }
                li { background: #2a2a30; margin: 12px 0; padding: 16px; border-radius: 6px; box-shadow: 0 4px 6px rgba(0,0,0,0.2); transition: 0.2s; }
                li:hover { background: #34343d; transform: translateX(5px); }
                a,summary { text-decoration: none; color: #64b5f6; font-weight: bold; display: block; }
                summary {list-style: none;}
                summary::-webkit-details-marker { display: none; }
                summary {font-size: 1.2rem; cursor: pointer; user-select: none;}
                summary::before { content: "▶"; font-size: 1.1rem; line-height: 1.1rem; color: #64b5f6;  display: inline-block; transform-origin: 10% 50%;  transition: transform 0.2s ease-in-out; padding-right: 1rem; }
                details[open] > summary::before { transform: rotate(90deg); }
            </style>
        </head>
        <body>
            <h1>🦀 Documentation Index</h1>
            <p>Dynamically discovered compiled targets inside target/doc:</p>
            <ul>"#;

/// The end of the index page.
pub const PAGE_TAIL: &'static str = "</ul></body></html>";

/// The list item that links to the toolchain's documentation.
pub open spec fn toolchain_item(toolchain_url: Seq<char>) -> Seq<char> {
    "<li><a href='"@ + toolchain_url + "'>📦 Rust Toolchain Docs</a></li>"@
}

/// The address of the front page of crate `krate` of project `project`.
pub open spec fn crate_href(doc_url: Seq<char>, project: Seq<char>, krate: Seq<char>) -> Seq<char> {
    doc_url + "/"@ + project + "/"@ + krate + "/index.html"@
}

/// The list item of a crate inside the entry of its project.
pub open spec fn crate_item(doc_url: Seq<char>, project: Seq<char>, krate: Seq<char>) -> Seq<char> {
    "<li><a href='"@ + crate_href(doc_url, project, krate) + "'>📦 "@ + krate + "</a></li>"@
}

/// The list items of the crates `crates` of project `project`, in order.
pub open spec fn crate_items(doc_url: Seq<char>, project: Seq<char>, crates: Seq<Seq<char>>) -> Seq<char>
    decreases crates.len(),
{
    if crates.len() == 0 {
        Seq::empty()
    } else {
        crate_items(doc_url, project, crates.drop_last()) + crate_item(doc_url, project, crates.last())
    }
}

/// The opening of the entry of a project that lists several crates.
pub open spec fn details_open(project: Seq<char>) -> Seq<char> {
    "<li><details>\n                <summary>"@ + project + "</summary>\n                <ul>"@
}

/// The entry of one project: a single link named after the project when no
/// crate was found in it, else a folding list with a link per crate.
pub open spec fn project_item(doc_url: Seq<char>, p: DocProjectView) -> Seq<char> {
    if p.crates.len() == 0 {
        "<li><a href='"@ + crate_href(doc_url, p.name, p.name) + "'>"@ + p.name + "</a></li>"@
    } else {
        details_open(p.name) + crate_items(doc_url, p.name, p.crates) + "</ul></details>"@
    }
}

/// The entries of the projects `ps`, in order.
pub open spec fn project_items(doc_url: Seq<char>, ps: Seq<DocProjectView>) -> Seq<char>
    decreases ps.len(),
{
    if ps.len() == 0 {
        Seq::empty()
    } else {
        project_items(doc_url, ps.drop_last()) + project_item(doc_url, ps.last())
    }
}

/// The index page: its head, the toolchain's entry when the toolchain's
/// documentation was found, the entry of every project in order, and its end.
pub open spec fn index_page(
    has_toolchain: bool,
    toolchain_url: Seq<char>,
    doc_url: Seq<char>,
    ps: Seq<DocProjectView>,
) -> Seq<char> {
    PAGE_HEAD@ + (if has_toolchain {
        toolchain_item(toolchain_url)
    } else {
        Seq::empty()
    }) + project_items(doc_url, ps) + PAGE_TAIL@
}

/// Appends the address of crate `krate` of project `project`.
fn append_href(html: &mut String, doc_url: &str, project: &str, krate: &str)
    ensures
        final(html)@ == old(html)@ + crate_href(doc_url@, project@, krate@),
{
    html.append(doc_url);
    html.append("/");
    html.append(project);
    html.append("/");
    html.append(krate);
    html.append("/index.html");
    assert(final(html)@ =~= old(html)@ + crate_href(doc_url@, project@, krate@));
}

/// Appends the entry of project `p`.
fn append_project(html: &mut String, doc_url: &str, p: &DocProject)
    ensures
        final(html)@ == old(html)@ + project_item(doc_url@, p@),
{
    let name = p.name.as_str();
    if p.crates.len() == 0 {
        html.append("<li><a href='");
        append_href(html, doc_url, name, name);
        html.append("'>");
        html.append(name);
        html.append("</a></li>");
        assert(final(html)@ =~= old(html)@ + project_item(doc_url@, p@));
    } else {
        html.append("<li><details>\n                <summary>");
        html.append(name);
        html.append("</summary>\n                <ul>");
        let ghost opened = html@;
        assert(opened =~= old(html)@ + details_open(p@.name));
        let ghost cs = p@.crates;
        let mut k: usize = 0;
        while k < p.crates.len()
            invariant
                k <= p.crates@.len(),
                cs == p@.crates,
                name@ == p@.name,
                cs.len() == p.crates@.len(),
                html@ == opened + crate_items(doc_url@, p@.name, cs.take(k as int)),
            decreases p.crates@.len() - k,
        {
            let krate = p.crates[k].as_str();
            html.append("<li><a href='");
            append_href(html, doc_url, name, krate);
            html.append("'>📦 ");
            html.append(krate);
            html.append("</a></li>");
            assert(cs.take(k + 1).drop_last() =~= cs.take(k as int));
            assert(cs[k as int] == krate@);
            assert(cs.take(k + 1).last() == krate@);
            assert(crate_items(doc_url@, p@.name, cs.take(k + 1)) == crate_items(doc_url@, p@.name, cs.take(k as int))
                + crate_item(doc_url@, p@.name, krate@));
            assert(html@ =~= opened + crate_items(doc_url@, p@.name, cs.take(k + 1)));
            k = k + 1;
        }
        assert(cs.take(cs.len() as int) =~= cs);
        html.append("</ul></details>");
        assert(final(html)@ =~= old(html)@ + project_item(doc_url@, p@));
    }
}

/// Builds the index page: the toolchain's entry when `toolchain_path` is
/// given, then one entry per project, in the order of `projects`.
pub fn create_index_page_content(
    toolchain_path: Option<&str>,
    toolchain_url: &str,
    doc_url: &str,
    projects: &[DocProject],
) -> (res: String)
    ensures
        res@ == index_page(toolchain_path is Some, toolchain_url@, doc_url@, projects_view(projects@)),
{
    let mut html = String::from_str(PAGE_HEAD);
    if toolchain_path.is_some() {
        html.append("<li><a href='");
        html.append(toolchain_url);
        html.append("'>📦 Rust Toolchain Docs</a></li>");
    }
    let ghost start = html@;
    let ghost ps = projects_view(projects@);
    let mut k: usize = 0;
    while k < projects.len()
        invariant
            k <= projects@.len(),
            ps == projects_view(projects@),
            html@ == start + project_items(doc_url@, ps.take(k as int)),
        decreases projects@.len() - k,
    {
        append_project(&mut html, doc_url, &projects[k]);
        assert(ps.take(k + 1).drop_last() =~= ps.take(k as int));
        assert(html@ =~= start + project_items(doc_url@, ps.take(k + 1)));
        k = k + 1;
    }
    assert(ps.take(ps.len() as int) =~= ps);
    html.append(PAGE_TAIL);
    assert(html@ =~= index_page(toolchain_path is Some, toolchain_url@, doc_url@, ps));
    html
}

/// The route under which the documentation of project `name` is mounted.
pub fn project_route(doc_url: &str, name: &str) -> (res: String)
    ensures
        res@ == doc_url@ + "/"@ + name@,
{
    let mut route = String::from_str(doc_url);
    route.append("/");
    route.append(name);
    route
}

} // verus!
