//! A per-community ledger and pin-lifecycle engine for a chat-platform
//! reaction tracker.
//!
//! The library counts a designated "vote" reaction applied to messages,
//! aggregates per-user totals, decides when a heavily-voted message must be
//! promoted into (or demoted out of) a tiered announcement channel, renders
//! paginated leaderboards, and persists every community's state as a pair of
//! JSON artifacts.  Transport to the chat platform (fetching users and
//! messages, sending or editing announcements) is left to the caller: every
//! function here works on plain values and says in its contract exactly what
//! it computes.

pub mod assoc;
pub mod codec;
pub mod commands;
pub mod leaderboard;
pub mod persist;
pub mod pin;
pub mod ledger;
pub mod maps;
pub mod store;
pub mod text;
pub mod updates;
