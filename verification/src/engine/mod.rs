//! The native engine: evaluation, search, static exchange evaluation,
//! Zobrist hashing, and the parsing of a UCI engine's replies.

pub mod eval;
pub mod mirror;
pub mod zobrist;
pub mod see;
pub mod order;
pub mod protocol;
pub mod search;

pub use protocol::parse_score;
