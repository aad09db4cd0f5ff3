//! A dependency graph of software packages across language ecosystems:
//! manifest parsing and editing, the graph schema and store, the engine
//! that chooses an ecosystem adapter, audit reports, and the toolchain
//! bookkeeping that decides which package-manager binary to use.
pub mod text;
pub mod schema;
pub mod manifest;
pub mod docmodel;
pub mod formats;
pub mod pep508;
pub mod adapters;
pub mod store;
pub mod toolchain;
pub mod engine;
pub mod clients;
pub mod security;
