//! The values a book hands out.

use vstd::prelude::*;
use crate::protocol::{BookUpdate, Fill, OrderId, OrderStatus, Price, Quantity, Trade};

verus! {

/// How many levels of each side the depth cache keeps.
pub const CACHE_LIMIT: usize = 50;

/// Aggregate quantity by price: bids from the highest price down, asks from
/// the lowest price up.
#[derive(Clone, Debug, PartialEq, Eq)]
pub struct Depth {
    pub bids: Vec<(Price, Quantity)>,
    pub asks: Vec<(Price, Quantity)>,
}

/// The last computed top of the book. `is_latest` is cleared by every
/// change to the book and set when the snapshot is recomputed.
#[derive(Clone, Debug)]
pub struct CachedDepth {
    pub bids: Vec<(Price, Quantity)>,
    pub asks: Vec<(Price, Quantity)>,
    pub is_latest: bool,
}

impl CachedDepth {
    /// An empty snapshot that has yet to be computed.
    pub fn new() -> (cache: CachedDepth)
        ensures
            cache.bids@.len() == 0,
            cache.asks@.len() == 0,
            !cache.is_latest,
    {
        CachedDepth { bids: Vec::new(), asks: Vec::new(), is_latest: false }
    }
}

/// What matching one incoming order produced.
#[derive(Clone, Debug)]
pub struct MatchResult {
    pub order_id: OrderId,
    /// The trades, in the order they happened.
    pub trades: Vec<Trade>,
    /// Two fills per trade: the maker's, then the taker's.
    pub fills: Vec<Fill>,
    /// What of the incoming order did not trade.
    pub remaining_quantity: Quantity,
    pub status: OrderStatus,
    /// Whether the remainder now rests in the book.
    pub rested: bool,
    /// The new top of the book, present when the call changed it.
    pub book_update: Option<BookUpdate>,
}

} // verus!
