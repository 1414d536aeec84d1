//! A verified core for a personal task tracker: an append-only store of todo
//! records with an archival/versioning chain, a substring search over a
//! canonical record representation, and a deterministic tabular formatter.
//!
//! Persistence, argument parsing and the graphical view are left to a thin
//! unverified shell; this crate holds the data model and every rule that
//! decides how records are created, completed, superseded, found and shown.

pub mod clock;
pub mod codec;
pub mod error;
pub mod ids;
pub mod record;
pub mod render;
pub mod search;
pub mod store;
pub mod text;
