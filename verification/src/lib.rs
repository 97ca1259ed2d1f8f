//! Local data layer of a note-taking desktop application: a vault index of
//! markdown documents, access rules for single documents, and the rules by
//! which small JSON-backed state files are loaded, merged and saved.
//!
//! The library touches no file. Its caller asks the file system, walks the
//! directory, reads and writes; the library decides what to make of what was
//! found and what is to be done. Paths are text with `/` between components.

pub mod classify;
pub mod document;
pub mod error;
pub mod ledger;
pub mod settings;
pub mod store;
pub mod text;
pub mod vault;
