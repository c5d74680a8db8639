//! A persisted, hierarchical inventory of a project's file tree: ignore-rule
//! matching, metadata tagging, and a depth-first tree walk that produces
//! linked node records and aggregate statistics.

pub mod gitignore;
pub mod menu_bar;
pub mod metadata;
pub mod panels;
pub mod project;
pub mod scanner;
pub mod settings;
pub mod snapshot;
pub mod snapshot_aggregate;
pub mod snapshot_file;
pub mod text;
