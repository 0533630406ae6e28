//! Structural analysis of a source-code repository: per-file classification,
//! directory trees, code metrics, manifest parsing, project-type detection,
//! security heuristics and commit-history statistics.
pub mod text;
pub mod tree;
pub mod classify;
pub mod filesystem;
pub mod ranking;
pub mod metrics;
pub mod config;
pub mod security;
pub mod detect;
pub mod history;
pub mod docs;
pub mod summary;
pub mod repo_url;
