//! Durable state core of a merge-queue bot.
//!
//! For every pipeline the crate tracks which pull requests wait to be tested,
//! which one is being tested and which wait for an outside decision, and it
//! caches the team and organisation facts that decide who may ask for a merge.
//! The tables are kept as plain rows, in the shape in which they are persisted,
//! so that a storage backend only has to copy rows in and out.

pub mod cache;
pub mod cache_laws;
pub mod commit;
pub mod decimal;
pub mod entry;
pub mod error;
pub mod filters;
pub mod ident;
pub mod laws;
pub mod model;
pub mod networked;
pub mod retry;
pub mod store;
pub mod table;
