//! Explainable chess engine: the verified core.

pub mod board;
pub mod engine;
pub mod explain;
pub mod features;
pub mod rules;
pub mod tablebase;
pub mod text;
pub mod training;
pub mod variant;

pub use engine::eval;
pub use engine::zobrist;
pub use engine::see;
pub use engine::search;
