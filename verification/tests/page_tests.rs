use doc_server::{create_index_page_content, DocProject, DOC_URL, TOOLCHAIN_URL};

const HEAD_END: &str = "<p>Dynamically discovered compiled targets inside target/doc:</p>\n            <ul>";

fn project(name: &str, crates: &[&str]) -> DocProject {
    DocProject {
        name: name.to_string(),
        doc_path: format!("/h/{}/target/doc", name),
        crates: crates.iter().map(|c| c.to_string()).collect(),
    }
}

fn body(page: &str) -> &str {
    let start = page.find(HEAD_END).expect("page head") + HEAD_END.len();
    &page[start..]
}

#[test]
fn empty_page_has_head_and_tail_only() {
    let page = create_index_page_content(None, TOOLCHAIN_URL, DOC_URL, &[]);
    assert!(page.starts_with("\n        <!DOCTYPE html>"));
    assert!(page.contains("<title>Local Documentation Hub</title>"));
    assert_eq!(body(&page), "</ul></body></html>");
}

#[test]
fn toolchain_entry_when_its_docs_were_found() {
    let page = create_index_page_content(Some("/x/html"), TOOLCHAIN_URL, DOC_URL, &[]);
    assert_eq!(
        body(&page),
        "<li><a href='/toolchain_doc/index.html'>📦 Rust Toolchain Docs</a></li></ul></body></html>"
    );
}

#[test]
fn project_without_crates_links_to_its_own_name() {
    let page = create_index_page_content(None, TOOLCHAIN_URL, DOC_URL, &[project("app", &[])]);
    assert_eq!(body(&page), "<li><a href='/doc/app/app/index.html'>app</a></li></ul></body></html>");
}

#[test]
fn project_with_crates_folds_them() {
    let page = create_index_page_content(None, TOOLCHAIN_URL, DOC_URL, &[project("ws", &["core", "util"])]);
    assert_eq!(
        body(&page),
        "<li><details>\n                <summary>ws</summary>\n                <ul>\
         <li><a href='/doc/ws/core/index.html'>📦 core</a></li>\
         <li><a href='/doc/ws/util/index.html'>📦 util</a></li>\
         </ul></details></ul></body></html>"
    );
}

#[test]
fn projects_appear_in_the_given_order() {
    let page = create_index_page_content(None, TOOLCHAIN_URL, DOC_URL, &[project("b", &[]), project("a", &[])]);
    let b = page.find("/doc/b/b/index.html").unwrap();
    let a = page.find("/doc/a/a/index.html").unwrap();
    assert!(b < a);
}
