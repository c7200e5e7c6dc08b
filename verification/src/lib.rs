//! Verified core of a code-indexing memory: path normalisation, language
//! detection, structural skeletons, embedding feature plans, position
//! encoding, caches and dependency matching.

pub mod positional;
pub mod text;
pub mod paths;
pub mod scanner;
pub mod digest;
pub mod local_embed;
pub mod embeddings;
pub mod cache;
pub mod db;
pub mod exporter;
pub mod dependencies;
pub mod watcher;
pub mod syntax;
pub mod mcp;
pub mod llm;
pub mod search;
