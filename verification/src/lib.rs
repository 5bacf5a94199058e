//! Core library of a local log viewer: log formats and records, line
//! indexing of raw log bytes, per-format record parsers, text decoding,
//! the on-disk index cache format, search, sessions, workspaces and the
//! viewer's application state.

pub mod domain;
pub mod text;
pub mod decode;
pub mod scan;
pub mod index;
pub mod parser;
pub mod cache;
pub mod backend;
pub mod query;
pub mod session;
pub mod workspace;
pub mod watcher;
pub mod theme;
pub mod ordering;
pub mod state;
pub mod refresh;
pub mod actions;
pub mod highlight;
