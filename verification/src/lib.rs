//! A central limit order book: a deterministic price-time matching core and
//! the market-data pipeline that turns its events into public and private
//! streams.

pub mod clock;
pub mod engine;
pub mod market_data;
pub mod net;
pub mod orderbook;
pub mod protocol;
