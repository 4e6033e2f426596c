# uvlift

An interactive picker for updating the dependencies of
[uv](https://docs.astral.sh/uv/)-managed Python projects: it finds every
`pyproject.toml` under the current directory, asks PyPI for the newest release
of each pinned dependency, rewrites the ones the user selects, and runs
`uv lock`, putting the file back when locking fails.

The logic is a library verified with Verus; the program around it is ordinary
Rust.

## Layout

- `src/` – the verified library:
  - `text.rs` – character-level helpers (decimal numbers, joining, comparing).
  - `pep.rs` – requirements and versions as plain values; parsing and ordering
    are done by `pep508_rs` and `pep440_rs`.
  - `manifest.rs` – looking up and replacing values in a TOML document with
    `toml_edit`.
  - `model.rs` – projects, dependency entries, sections and statuses.
  - `pyproject.rs` – reading a `pyproject.toml` into entries (which specifiers
    can be rewritten, which packages `[tool.uv.sources]` manages), writing the
    new requirement strings, and deciding the outcome of an update and of its
    rollback.
  - `pypi.rs` – the cache of newest versions, how a fetched version changes an
    entry, and the retry and worker decisions around fetching.
  - `order.rs` – the order projects are listed in (by path components).
  - `tui.rs` – the picker's state and what each key does to it.
  - `screen.rs` – the text of the picker's screens.
- `app/` – the program: walking the directory tree, reading and writing files,
  running `uv lock`, HTTP requests to PyPI, and drawing the terminal UI.
- `tests/` – tests of the library.

Only `==`, `~=` and `>=` single-clause specifiers are rewritten; everything
else is listed as unsupported and left untouched.
