//! Discovery of compiled Rust documentation and the landing page that lists it.
//!
//! The library holds the decisions of a local documentation server: how paths
//! are joined, which directories count as documentation, in what order projects
//! and crates are listed, where the toolchain's own documentation is looked
//! for, and the HTML of the index page. Reading the disk, the environment and
//! the network is left to the program around it, which answers the questions
//! that the searches in [`walk`] and [`toolchain`] ask.

pub mod components;
pub mod discover;
pub mod discover_laws;
pub mod order;
pub mod order_laws;
pub mod page;
pub mod page_laws;
pub mod paths;
pub mod project;
pub mod stdpath;
pub mod text;
pub mod toolchain;
pub mod toolchain_laws;
pub mod walk;
pub mod walk_laws;

pub use components::PathPart;
pub use discover::{crates_in, doc_project, is_doc_dir, sort_projects, CrateDirEntry};
pub use page::{create_index_page_content, project_route, DOC_URL, TOOLCHAIN_ROOT_URL, TOOLCHAIN_URL};
pub use paths::{index_file_path, push_path};
pub use project::DocProject;
pub use toolchain::{get_toolchain_doc_path, SearchEvent, SearchStep, ToolchainSearch};
pub use walk::{find_doc_entries, DirEntryRead, DocSearch, DocTree, IoFailure};
