# doc_server

A local server for compiled Rust documentation. It looks below a directory for
the `target/doc` folders that `cargo doc` leaves, builds an index page that
links every project and crate it found, and serves the documentation, together
with the toolchain's own documentation when that can be found.

The library in `src/` is verified with Verus:

- `walk` — the depth-first search for `target` directories that hold `doc`,
  written as a function of what has been read so far; `walk_laws` proves that a
  finished search keeps its answer, that it only asks for unread directories,
  that everything it reports is a `target` directory with a `doc` inside, and
  that it lies below the directory where the search starts.
- `toolchain` — the search for the toolchain's documentation (`rustup`, then
  `RUSTUP_HOME`, then `~/.rustup`), as a state machine; `toolchain_laws` proves
  that every answer moves it towards its end.
- The tree of the search and the state of the toolchain search keep their
  invariants as type invariants.
- `components`, `discover`, `order` — which entries are projects and crates
  (judged on the components of their paths, so that a project whose name is
  not valid Unicode is left out), and the stable
  sorts that order them; `order_laws` and `discover_laws` prove the order, the
  stability and that nothing is lost.
- `page` — the HTML of the index page; `page_laws` proves that every project
  and crate is linked.
- `paths`, `text`, `stdpath` — joining paths, trimming white space, and the
  few functions of `std` that the library calls.

`app/` is the program: command line, file system, environment, and the HTTP
server (axum, tower-http, tokio). It answers the questions the searches ask.
