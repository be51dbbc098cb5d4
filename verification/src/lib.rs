//! An attendance ledger: a roster of persons, per-person per-date presence
//! records, and a rolling attendance-history view over a trailing window.
//!
//! The store itself is verified: every operation's contract is stated over
//! the store's mathematical value. Calendar parsing, the clock, and string
//! collation come from outside and are taken on trust behind small wrappers
//! whose contracts name what they rely on.

pub mod dates;
pub mod laws;
pub mod models;
pub mod store;
pub mod text;
