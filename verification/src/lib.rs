//! A revision store for structured documents.
//!
//! A document is a forest of attributed nodes. Every mutation is a
//! [`change::Change`]; changes are grouped into revisions, revisions are
//! appended to a repository, and the current node store is always the fold of
//! the whole change history over the empty store.

pub mod application;
pub mod change;
pub mod document;
pub mod error;
pub mod history;
pub mod intern;
pub mod issues;
pub mod network_protocol;
pub mod node_id;
pub mod node_links;
pub mod node_store;
pub mod readwrite;
pub mod repository;
pub mod revision;
pub mod server;
