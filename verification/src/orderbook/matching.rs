//! Matching incoming orders against the book.

use vstd::prelude::*;
use crate::orderbook::book::{OrderBook, OrderEntry};
use crate::orderbook::error::OrderBookError;
use crate::orderbook::state::{lemma_extremes, BookState};
use crate::orderbook::sweep::{fill_of, marketable, trade_of};
use crate::orderbook::types::{MatchResult, CACHE_LIMIT};
use crate::protocol::{Fill, OrderStatus, Price, Quantity, Side, Trade};

verus! {

/// An incoming order on `side` bounded by `limit` may trade at
/// `maker_price`.
fn is_marketable(side: Side, limit: Option<Price>, maker_price: Price) -> (ok: bool)
    ensures
        ok == marketable(side, limit, maker_price),
{
    match limit {
        None => true,
        Some(p) => match side {
            Side::Buy => maker_price <= p,
            Side::Sell => maker_price >= p,
        },
    }
}

/// Two tops of book are the same.
pub(crate) fn same_top(a: Option<(Price, u128)>, b: Option<(Price, u128)>) -> (same: bool)
    ensures
        same == (a == b),
{
    match (a, b) {
        (None, None) => true,
        (Some(x), Some(y)) => x.0 == y.0 && x.1 == y.1,
        _ => false,
    }
}

/// The best level of either side differs between the two books, in price
/// or in open quantity.
pub open spec fn top_changed(before: BookState, after: BookState) -> bool {
    before.top(Side::Buy) != after.top(Side::Buy) || before.top(Side::Sell) != after.top(
        Side::Sell,
    )
}

/// The book after `order` has been matched under `limit`: swept, and then
/// rested with what is left of it when it has a limit.
pub open spec fn matched(
    book: BookState,
    order: OrderEntry,
    limit: Option<Price>,
    symbol: String,
) -> BookState {
    let sw = book.sweep(order, limit, symbol);
    if limit is Some && sw.remaining > 0 {
        sw.book.rest(OrderEntry { remaining_quantity: sw.remaining, ..order })
    } else {
        sw.book
    }
}

/// `result` reports the matching of `order` under `limit` against
/// `before`, which left `after`.
pub open spec fn reports(
    result: MatchResult,
    before: BookState,
    after: BookState,
    order: OrderEntry,
    limit: Option<Price>,
    symbol: String,
) -> bool {
    let sw = before.sweep(order, limit, symbol);
    &&& result.order_id == order.order_id
    &&& result.trades@ == sw.trades
    &&& result.fills@ == sw.fills
    &&& result.remaining_quantity == sw.remaining
    &&& result.status == OrderStatus::after_fill(order.quantity, sw.remaining)
    &&& result.rested == (limit is Some && sw.remaining > 0)
    &&& result.book_update is Some <==> top_changed(before, after)
    &&& result.book_update matches Some(update) ==> after.is_shown_by(
        update,
        symbol,
        CACHE_LIMIT as nat,
    )
}

/// What a sweep hands back: the trades, the fills, and what is left of the
/// incoming order.
struct SweepOutcome {
    trades: Vec<Trade>,
    fills: Vec<Fill>,
    remaining: Quantity,
}

impl OrderBook {
    /// The book can number every trade that matching one more order might
    /// produce: at most one per resting order.
    pub open spec fn has_trade_ids(&self) -> bool {
        self@.next_trade_id + self@.orders.len() <= u64::MAX
    }

    /// The order is sound and new to the book. Its price is not looked at.
    pub open spec fn admits(&self, order: OrderEntry) -> bool {
        &&& order.quantity > 0
        &&& 0 < order.remaining_quantity <= order.quantity
        &&& !self@.orders.contains_key(order.order_id)
    }

    /// Matches `order` under `limit` and rests what is left when there is a
    /// limit.
    fn place(&mut self, order: OrderEntry, limit: Option<Price>) -> (result: Result<
        MatchResult,
        OrderBookError,
    >)
        requires
            old(self).wf(),
            limit matches Some(p) ==> p == order.price && p > 0,
        ensures
            final(self).wf(),
            final(self).spec_symbol() == old(self).spec_symbol(),
            result is Ok <==> old(self).admits(order) && old(self).has_trade_ids(),
            result matches Ok(r) ==> {
                &&& final(self)@ == matched(old(self)@, order, limit, old(self).spec_symbol())
                &&& reports(r, old(self)@, final(self)@, order, limit, old(self).spec_symbol())
            },
            result is Err ==> *final(self) == *old(self),
            order.quantity == 0 ==> (result matches Err(e) && e.is_invalid_order(
                OrderEntry::quantity_message(),
            )),
            order.quantity > 0 && !(0 < order.remaining_quantity <= order.quantity) ==> (
            result matches Err(e) && e.is_invalid_order(Self::remaining_message())),
            order.quantity > 0 && 0 < order.remaining_quantity <= order.quantity && old(
                self,
            )@.orders.contains_key(order.order_id) ==> (result matches Err(e)
                && e.is_invalid_order(Self::duplicate_message())),
            old(self).admits(order) && !old(self).has_trade_ids() ==> result == Err::<
                MatchResult,
                OrderBookError,
            >(OrderBookError::TradeIdsExhausted),
    {
        if order.quantity == 0 {
            return Err(OrderBookError::InvalidOrder("Quantity must be greater than 0".to_owned()));
        }
        if order.remaining_quantity == 0 || order.remaining_quantity > order.quantity {
            return Err(
                OrderBookError::InvalidOrder(
                    "Remaining quantity must be between 1 and the quantity".to_owned(),
                ),
            );
        }
        if self.get_order(order.order_id).is_some() {
            return Err(OrderBookError::InvalidOrder("Order id is already in the book".to_owned()));
        }
        let resting: u64 = self.len() as u64;
        if u64::MAX - self.next_trade_id() < resting {
            return Err(OrderBookError::TradeIdsExhausted);
        }
        let bid_before = self.top_of_book(Side::Buy);
        let ask_before = self.top_of_book(Side::Sell);
        let swept = self.run_sweep(order, limit);
        let ghost mid = self@;
        let rested = limit.is_some() && swept.remaining > 0;
        if rested {
            let residual = OrderEntry { remaining_quantity: swept.remaining, ..order };
            proof {
                lemma_extremes(mid.bids.dom());
                lemma_extremes(mid.asks.dom());
                match mid.next_match_candidate(order.side) {
                    None => {},
                    Some(id) => {
                        let best = mid.best(order.side.opposite())->0;
                        assert(mid.ladder(order.side.opposite()).contains_key(best));
                        assert(mid.ladder(order.side.opposite())[best][0] == id);
                        assert(mid.orders.contains_key(id));
                        assert(mid.entry_ok(id));
                    },
                }
                assert(!mid.crosses(order.side, order.price));
            }
            let added = self.add_order(residual);
            assert(added is Ok);
        }
        let bid_after = self.top_of_book(Side::Buy);
        let ask_after = self.top_of_book(Side::Sell);
        let book_update = if same_top(bid_before, bid_after) && same_top(ask_before, ask_after) {
            None
        } else {
            Some(self.book_update())
        };
        Ok(
            MatchResult {
                order_id: order.order_id,
                trades: swept.trades,
                fills: swept.fills,
                remaining_quantity: swept.remaining,
                status: OrderStatus::after_fill(order.quantity, swept.remaining),
                rested,
                book_update,
            },
        )
    }

    /// Matches a limit order: it trades with resting orders at its price or
    /// better, oldest first at each price, and what is left of it rests in
    /// the book.
    ///
    /// The checks are made in this order: quantity, price, remaining
    /// quantity, id, trade ids. An order that fails one leaves the book
    /// untouched.
    pub fn match_limit_order(&mut self, order: OrderEntry) -> (result: Result<
        MatchResult,
        OrderBookError,
    >)
        requires
            old(self).wf(),
        ensures
            final(self).wf(),
            final(self).spec_symbol() == old(self).spec_symbol(),
            result is Ok <==> old(self).admits(order) && order.price > 0 && old(
                self,
            ).has_trade_ids(),
            result matches Ok(r) ==> {
                &&& final(self)@ == matched(
                    old(self)@,
                    order,
                    Some(order.price),
                    old(self).spec_symbol(),
                )
                &&& reports(
                    r,
                    old(self)@,
                    final(self)@,
                    order,
                    Some(order.price),
                    old(self).spec_symbol(),
                )
            },
            result is Err ==> *final(self) == *old(self),
            order.quantity == 0 ==> (result matches Err(e) && e.is_invalid_order(
                OrderEntry::quantity_message(),
            )),
            order.quantity > 0 && order.price == 0 ==> (result matches Err(e) && e.is_invalid_order(
                OrderEntry::price_message(),
            )),
            order.quantity > 0 && order.price > 0 && !(0 < order.remaining_quantity
                <= order.quantity) ==> (result matches Err(e) && e.is_invalid_order(
                Self::remaining_message(),
            )),
            order.quantity > 0 && order.price > 0 && 0 < order.remaining_quantity <= order.quantity
                && old(self)@.orders.contains_key(order.order_id) ==> (result matches Err(e)
                && e.is_invalid_order(Self::duplicate_message())),
            old(self).admits(order) && order.price > 0 && !old(self).has_trade_ids() ==> result
                == Err::<MatchResult, OrderBookError>(OrderBookError::TradeIdsExhausted),
    {
        match order.validate_order() {
            Err(e) => {
                return Err(e);
            },
            Ok(()) => {},
        }
        self.place(order, Some(order.price))
    }

    /// Matches a market order: it trades with resting orders at any price,
    /// best price first and oldest first at each price. What is left of it
    /// is given up; a market order never rests. Its price is not looked at.
    ///
    /// The checks are made in this order: quantity, remaining quantity, id,
    /// trade ids. An order that fails one leaves the book untouched.
    pub fn match_market_order(&mut self, order: OrderEntry) -> (result: Result<
        MatchResult,
        OrderBookError,
    >)
        requires
            old(self).wf(),
        ensures
            final(self).wf(),
            final(self).spec_symbol() == old(self).spec_symbol(),
            result is Ok <==> old(self).admits(order) && old(self).has_trade_ids(),
            result matches Ok(r) ==> {
                &&& final(self)@ == matched(old(self)@, order, None, old(self).spec_symbol())
                &&& reports(r, old(self)@, final(self)@, order, None, old(self).spec_symbol())
            },
            result is Err ==> *final(self) == *old(self),
            order.quantity == 0 ==> (result matches Err(e) && e.is_invalid_order(
                OrderEntry::quantity_message(),
            )),
            order.quantity > 0 && !(0 < order.remaining_quantity <= order.quantity) ==> (
            result matches Err(e) && e.is_invalid_order(Self::remaining_message())),
            order.quantity > 0 && 0 < order.remaining_quantity <= order.quantity && old(
                self,
            )@.orders.contains_key(order.order_id) ==> (result matches Err(e)
                && e.is_invalid_order(Self::duplicate_message())),
            old(self).admits(order) && !old(self).has_trade_ids() ==> result == Err::<
                MatchResult,
                OrderBookError,
            >(OrderBookError::TradeIdsExhausted),
    {
        self.place(order, None)
    }

    /// Sweeps `taker` through the book.
    fn run_sweep(&mut self, taker: OrderEntry, limit: Option<Price>) -> (out: SweepOutcome)
        requires
            old(self).wf(),
            old(self).has_trade_ids(),
            !old(self)@.orders.contains_key(taker.order_id),
        ensures
            final(self).wf(),
            final(self).spec_symbol() == old(self).spec_symbol(),
            ({
                let sw = old(self)@.sweep(taker, limit, old(self).spec_symbol());
                &&& final(self)@ == sw.book
                &&& out.trades@ == sw.trades
                &&& out.fills@ == sw.fills
                &&& out.remaining == sw.remaining
            }),
            out.remaining <= taker.remaining_quantity,
            !final(self)@.orders.contains_key(taker.order_id),
            final(self)@.sweep_stops(
                OrderEntry { remaining_quantity: out.remaining, ..taker },
                limit,
            ),
            out.trades@.len() == 0 ==> *final(self) == *old(self),
    {
        let ghost symbol = self.spec_symbol();
        let ghost whole = self@.sweep(taker, limit, symbol);
        let mut trades: Vec<Trade> = Vec::new();
        let mut fills: Vec<Fill> = Vec::new();
        let mut left = taker;
        let mut done = false;
        proof {
            assert(trades@ + whole.trades =~= whole.trades);
            assert(fills@ + whole.fills =~= whole.fills);
        }
        while left.remaining_quantity > 0 && !done
            invariant
                self.wf(),
                self.spec_symbol() == symbol,
                symbol == old(self).spec_symbol(),
                whole == old(self)@.sweep(taker, limit, symbol),
                left == (OrderEntry { remaining_quantity: left.remaining_quantity, ..taker }),
                left.remaining_quantity <= taker.remaining_quantity,
                !self@.orders.contains_key(taker.order_id),
                left.remaining_quantity > 0 ==> self.has_trade_ids(),
                self@.next_trade_id <= u64::MAX,
                ({
                    let rest = self@.sweep(left, limit, symbol);
                    &&& whole.book == rest.book
                    &&& whole.trades == trades@ + rest.trades
                    &&& whole.fills == fills@ + rest.fills
                    &&& whole.remaining == rest.remaining
                }),
                done ==> self@.sweep_stops(left, limit),
                trades@.len() == 0 ==> *self == *old(self),
            decreases left.remaining_quantity, (if done { 0int } else { 1int }),
        {
            match self.get_next_matchable_order(left.side) {
                None => {
                    done = true;
                },
                Some(maker_id) => {
                    let maker = *self.get_order(maker_id).unwrap();
                    proof {
                        assert(self@.entry_ok(maker_id));
                    }
                    if !is_marketable(left.side, limit, maker.price) {
                        done = true;
                    } else {
                        let quantity = if left.remaining_quantity <= maker.remaining_quantity {
                            left.remaining_quantity
                        } else {
                            maker.remaining_quantity
                        };
                        let ghost before = self@;
                        proof {
                            before.orders.lemma_remove_key_len(maker_id);
                            before.lemma_fill_wf(maker_id, quantity);
                            if quantity < maker.remaining_quantity {
                                assert(before.fill(maker_id, quantity).orders.dom()
                                    =~= before.orders.dom());
                            }
                        }
                        self.update_order_quantity(maker_id, quantity);
                        let trade_id = self.generate_trade_id();
                        self.record_last_price(maker.price);
                        proof {
                            assert(self@ == before.traded(maker_id, quantity, maker.price));
                        }
                        let trade = Trade {
                            trade_id,
                            maker_order_id: maker.order_id,
                            maker_user_id: maker.user_id,
                            taker_order_id: left.order_id,
                            taker_user_id: left.user_id,
                            symbol: self.symbol(),
                            quantity,
                            price: maker.price,
                            timestamp: left.timestamp,
                        };
                        let maker_fill = Fill {
                            order_id: maker.order_id,
                            user_id: maker.user_id,
                            symbol: self.symbol(),
                            side: maker.side,
                            filled_quantity: quantity,
                            filled_price: maker.price,
                            remaining_quantity: maker.remaining_quantity - quantity,
                        };
                        let taker_fill = Fill {
                            order_id: left.order_id,
                            user_id: left.user_id,
                            symbol: self.symbol(),
                            side: left.side,
                            filled_quantity: quantity,
                            filled_price: maker.price,
                            remaining_quantity: left.remaining_quantity - quantity,
                        };
                        let ghost prior = left;
                        left.remaining_quantity = left.remaining_quantity - quantity;
                        proof {
                            let rest = self@.sweep(left, limit, symbol);
                            let t = trade_of(before.next_trade_id, maker, prior, quantity, symbol);
                            let mf = fill_of(maker, quantity, maker.price, symbol);
                            let tf = fill_of(prior, quantity, maker.price, symbol);
                            assert(trade == t);
                            assert(maker_fill == mf);
                            assert(taker_fill == tf);
                            assert(trades@ + (seq![t] + rest.trades) =~= trades@.push(t)
                                + rest.trades);
                            assert(fills@ + (seq![mf, tf] + rest.fills) =~= fills@.push(mf).push(tf)
                                + rest.fills);
                        }
                        trades.push(trade);
                        fills.push(maker_fill);
                        fills.push(taker_fill);
                    }
                },
            }
        }
        proof {
            let rest = self@.sweep(left, limit, symbol);
            assert(trades@ + rest.trades =~= trades@);
            assert(fills@ + rest.fills =~= fills@);
        }
        SweepOutcome { trades, fills, remaining: left.remaining_quantity }
    }
}

} // verus!
