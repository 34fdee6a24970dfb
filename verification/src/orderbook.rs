//! The per-symbol order book: price levels, the book itself and matching.

pub mod book;
pub mod error;
pub mod ladder;
pub mod laws;
pub mod matching;
pub mod price_levels;
pub mod state;
pub mod sweep;
pub mod types;
