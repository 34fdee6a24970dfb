//! What a book operation can refuse.

use vstd::prelude::*;
use crate::protocol::OrderId;

verus! {

#[derive(Clone, Debug, PartialEq, Eq)]
pub enum OrderBookError {
    /// The order is malformed; the text says how.
    InvalidOrder(String),
    /// No resting order has this id.
    OrderNotFound(OrderId),
    /// The book cannot number every trade the call might produce.
    TradeIdsExhausted,
}

impl OrderBookError {
    /// The error is `InvalidOrder` and carries exactly `message`.
    pub open spec fn is_invalid_order(self, message: Seq<char>) -> bool {
        match self {
            OrderBookError::InvalidOrder(m) => m@ == message,
            _ => false,
        }
    }
}

} // verus!
