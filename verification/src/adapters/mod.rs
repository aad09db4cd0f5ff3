//! The built-in ecosystem adapters: what each one reads from its manifest.
pub mod cargo;
pub mod npm;
pub mod pypi;
pub mod composer;
pub mod pyproject_edit;
pub mod registry;
