//! Core of a package/build manager for a native-compiled language:
//! manifest and lock data model, dependency-graph resolution, content-hash
//! change detection, build-script descriptor marshalling, and the pure
//! decision logic of the build orchestrator.

pub mod dynamic;
pub mod lsp;
pub mod new;
pub mod orchestrator;
pub mod package;
pub mod paths;
pub mod prettify;
pub mod text;
pub mod update;
pub mod yac_toml;
