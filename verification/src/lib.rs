//! Verified core of a small Java build tool: package paths, the lock file's
//! dependency bookkeeping, source dependency graphs and build decisions.

pub mod text;
pub mod package;
pub mod maven;
pub mod lock_file;
pub mod lock_gc;
pub mod errors;
pub mod diagnostic;
pub mod build_graph;
pub mod lock_merge;
pub mod lock_query;
pub mod lock_sync;
pub mod lock_laws;
pub mod dep_graph;
pub mod args;
pub mod metadata;
pub mod config;
pub mod config_edit;
pub mod import;
pub mod context;
pub mod find_main;
pub mod graph_build;
pub mod javac;
pub mod annotations;
pub mod lock_fetch;
pub mod jar;
pub mod services;
pub mod pom;
pub mod resources;
pub mod project_files;
