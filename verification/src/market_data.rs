//! The market-data side: engine events become public and private stream
//! events, tickers are rolled up and depth is throttled.

pub mod aggregator;
pub mod pipeline;
pub mod publisher;
pub mod transformer;
pub mod types;
