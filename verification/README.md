# gpm — graph package manager

A dependency graph of software packages across language ecosystems (Cargo,
npm, PyPI, Composer), with the manifest logic proved correct in Verus.

Layout:

- `src/` — the verified library.
  - `text.rs`, `pep508.rs` — character-level helpers, PEP 508 specifiers and
    PEP 503 name normalization.
  - `schema.rs`, `manifest.rs` — graph nodes and edges, and the graph every
    manifest parser returns.
  - `docmodel.rs` — plain trees of parsed TOML and JSON documents.
  - `formats.rs` — reading TOML and JSON texts into those trees, and JSON
    written back in pretty form.
  - `adapters/` — what each ecosystem reads from its manifest, the edits of
    `requirements.txt`, `composer.json` and `pyproject.toml`, and the adapter
    registry.
  - `store.rs` — the graph store's schema and statements.
  - `engine.rs` — configuration, adapter choice, writing a graph to the store.
  - `toolchain.rs` — bookkeeping and decisions for package-manager binaries.
  - `clients.rs`, `security.rs` — registry clients and audit reports.
- `app/` — the `gpm` command: command line, files, processes, network.
- `tests/` — tests of the library.
