//! Reference classification and document structure for a vault of linked
//! Markdown notes: unresolved-link diagnostics, "create file" quick-fixes,
//! heading outlines, relative-date symbols and daily-note notebook matching.
pub mod commands;
pub mod config;
pub mod daily;
pub mod outline;
pub mod references;
pub mod symbols;
pub mod text;
