//! What matching an incoming order against a book means.

use vstd::prelude::*;
use crate::orderbook::book::OrderEntry;
use crate::orderbook::state::BookState;
use crate::protocol::{Fill, OrderId, Price, Quantity, Side, Trade};

verus! {

/// An incoming order on `side` bounded by `limit` may trade at
/// `maker_price`. An order without a limit may trade at any price.
pub open spec fn marketable(side: Side, limit: Option<Price>, maker_price: Price) -> bool {
    match limit {
        None => true,
        Some(p) => match side {
            Side::Buy => maker_price <= p,
            Side::Sell => maker_price >= p,
        },
    }
}

pub open spec fn min_quantity(a: Quantity, b: Quantity) -> Quantity {
    if a <= b {
        a
    } else {
        b
    }
}

/// The trade of `quantity` between the resting `maker` and the incoming
/// `taker`, numbered `trade_id`. It happens at the maker's price and
/// carries the taker's time of entry.
pub open spec fn trade_of(
    trade_id: nat,
    maker: OrderEntry,
    taker: OrderEntry,
    quantity: Quantity,
    symbol: String,
) -> Trade {
    Trade {
        trade_id: trade_id as u64,
        maker_order_id: maker.order_id,
        maker_user_id: maker.user_id,
        taker_order_id: taker.order_id,
        taker_user_id: taker.user_id,
        symbol,
        quantity,
        price: maker.price,
        timestamp: taker.timestamp,
    }
}

/// What `order` is told of a trade of `quantity` at `price`.
pub open spec fn fill_of(order: OrderEntry, quantity: Quantity, price: Price, symbol: String) -> Fill {
    Fill {
        order_id: order.order_id,
        user_id: order.user_id,
        symbol,
        side: order.side,
        filled_quantity: quantity,
        filled_price: price,
        remaining_quantity: (order.remaining_quantity - quantity) as Quantity,
    }
}

/// The outcome of sweeping an incoming order through a book.
pub struct Sweep {
    /// The book after the last trade.
    pub book: BookState,
    /// The trades, in the order they happened.
    pub trades: Seq<Trade>,
    /// Two fills per trade: the maker's, then the taker's.
    pub fills: Seq<Fill>,
    /// What of the incoming order did not trade.
    pub remaining: Quantity,
}

impl BookState {
    /// The book after `quantity` of the resting order `maker_id` has traded
    /// at `price`.
    pub open spec fn traded(self, maker_id: OrderId, quantity: Quantity, price: Price) -> BookState {
        BookState {
            next_trade_id: self.next_trade_id + 1,
            last_price: Some(price),
            ..self.fill(maker_id, quantity)
        }
    }

    /// Sweeps `taker` through the book: while something of it is left and
    /// the oldest order at the best opposing price is within `limit`, the
    /// two trade the lesser of their open quantities at the resting order's
    /// price.
    pub open spec fn sweep(self, taker: OrderEntry, limit: Option<Price>, symbol: String) -> Sweep
        decreases taker.remaining_quantity,
    {
        let stop = Sweep {
            book: self,
            trades: Seq::empty(),
            fills: Seq::empty(),
            remaining: taker.remaining_quantity,
        };
        if taker.remaining_quantity == 0 {
            stop
        } else {
            match self.next_match_candidate(taker.side) {
                None => stop,
                Some(id) => {
                    let maker = self.orders[id];
                    let quantity = min_quantity(
                        taker.remaining_quantity,
                        maker.remaining_quantity,
                    );
                    if !marketable(taker.side, limit, maker.price) || quantity == 0 {
                        stop
                    } else {
                        let left = OrderEntry {
                            remaining_quantity: (taker.remaining_quantity - quantity) as Quantity,
                            ..taker
                        };
                        let rest = self.traded(id, quantity, maker.price).sweep(left, limit, symbol);
                        Sweep {
                            book: rest.book,
                            trades: seq![trade_of(self.next_trade_id, maker, taker, quantity, symbol)]
                                + rest.trades,
                            fills: seq![
                                fill_of(maker, quantity, maker.price, symbol),
                                fill_of(taker, quantity, maker.price, symbol),
                            ] + rest.fills,
                            remaining: rest.remaining,
                        }
                    }
                },
            }
        }
    }

    /// The sweep of `taker` does not trade at all.
    pub open spec fn sweep_stops(self, taker: OrderEntry, limit: Option<Price>) -> bool {
        taker.remaining_quantity == 0 || match self.next_match_candidate(taker.side) {
            None => true,
            Some(id) => !marketable(taker.side, limit, self.orders[id].price) || min_quantity(
                taker.remaining_quantity,
                self.orders[id].remaining_quantity,
            ) == 0,
        }
    }

    /// Every trade of a sweep comes with two fills, the maker's and then
    /// the taker's, for the trade's quantity at the trade's price.
    pub proof fn lemma_fills_pair_with_trades(
        self,
        taker: OrderEntry,
        limit: Option<Price>,
        symbol: String,
    )
        ensures
            ({
                let sw = self.sweep(taker, limit, symbol);
                &&& sw.fills.len() == 2 * sw.trades.len()
                &&& forall|i: int|
                    #![trigger sw.trades[i]]
                    0 <= i < sw.trades.len() ==> {
                        let trade = sw.trades[i];
                        let maker = sw.fills[2 * i];
                        let other = sw.fills[2 * i + 1];
                        &&& maker.order_id == trade.maker_order_id
                        &&& maker.user_id == trade.maker_user_id
                        &&& other.order_id == trade.taker_order_id
                        &&& other.user_id == trade.taker_user_id
                        &&& maker.filled_quantity == trade.quantity
                        &&& other.filled_quantity == trade.quantity
                        &&& maker.filled_price == trade.price
                        &&& other.filled_price == trade.price
                        &&& maker.symbol == trade.symbol
                        &&& other.symbol == trade.symbol
                        &&& other.side == taker.side
                    }
            }),
        decreases taker.remaining_quantity,
    {
        let sw = self.sweep(taker, limit, symbol);
        if !self.sweep_stops(taker, limit) {
            let id = self.next_match_candidate(taker.side)->0;
            let maker = self.orders[id];
            let quantity = min_quantity(taker.remaining_quantity, maker.remaining_quantity);
            let left = OrderEntry {
                remaining_quantity: (taker.remaining_quantity - quantity) as Quantity,
                ..taker
            };
            let next = self.traded(id, quantity, maker.price);
            next.lemma_fills_pair_with_trades(left, limit, symbol);
            let rest = next.sweep(left, limit, symbol);
            assert forall|i: int| #![trigger sw.trades[i]] 0 <= i < sw.trades.len() implies {
                let trade = sw.trades[i];
                let mf = sw.fills[2 * i];
                let tf = sw.fills[2 * i + 1];
                &&& mf.order_id == trade.maker_order_id
                &&& mf.user_id == trade.maker_user_id
                &&& tf.order_id == trade.taker_order_id
                &&& tf.user_id == trade.taker_user_id
                &&& mf.filled_quantity == trade.quantity
                &&& tf.filled_quantity == trade.quantity
                &&& mf.filled_price == trade.price
                &&& tf.filled_price == trade.price
                &&& mf.symbol == trade.symbol
                &&& tf.symbol == trade.symbol
                &&& tf.side == taker.side
            } by {
                if i > 0 {
                    assert(sw.trades[i] == rest.trades[i - 1]);
                    assert(sw.fills[2 * i] == rest.fills[2 * (i - 1)]);
                    assert(sw.fills[2 * i + 1] == rest.fills[2 * (i - 1) + 1]);
                }
            }
        }
    }
}

} // verus!
