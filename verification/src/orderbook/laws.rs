//! What holds of every consistent book and of every sweep through one.

use vstd::prelude::*;
use crate::orderbook::book::OrderEntry;
use crate::orderbook::state::{lemma_extremes, BookState};
use crate::orderbook::matching::matched;
use crate::orderbook::sweep::{marketable, min_quantity};
use crate::protocol::{OrderId, Price, Quantity, Trade};

verus! {

/// The quantity that a run of trades moved.
pub open spec fn traded_quantity(trades: Seq<Trade>) -> nat
    decreases trades.len(),
{
    if trades.len() == 0 {
        0
    } else {
        trades[0].quantity as nat + traded_quantity(trades.drop_first())
    }
}

/// In a consistent book the best bid is below the best ask whenever both
/// sides hold an order.
pub proof fn lemma_never_crossed(book: BookState)
    requires
        book.wf(),
    ensures
        match (book.best_bid(), book.best_ask()) {
            (Some(b), Some(a)) => b < a,
            _ => true,
        },
{
    lemma_extremes(book.bids.dom());
    lemma_extremes(book.asks.dom());
    match (book.best_bid(), book.best_ask()) {
        (Some(b), Some(a)) => {
            assert(book.bids.contains_key(b));
            assert(book.asks.contains_key(a));
        },
        _ => {},
    }
}

/// An order that has been taken out of a consistent book is no longer in
/// it, and neither is one that has been filled completely.
pub proof fn lemma_gone_after_leaving(book: BookState, id: OrderId)
    requires
        book.wf(),
        book.orders.contains_key(id),
    ensures
        !book.remove(id).orders.contains_key(id),
        !book.fill(id, book.orders[id].remaining_quantity).orders.contains_key(id),
{
}

/// A sweep through a consistent book leaves a consistent book.
pub proof fn lemma_sweep_wf(book: BookState, taker: OrderEntry, limit: Option<Price>, symbol: String)
    requires
        book.wf(),
    ensures
        book.sweep(taker, limit, symbol).book.wf(),
    decreases taker.remaining_quantity,
{
    if !book.sweep_stops(taker, limit) {
        let id = book.next_match_candidate(taker.side)->0;
        let maker = book.orders[id];
        let quantity = min_quantity(taker.remaining_quantity, maker.remaining_quantity);
        let left = OrderEntry {
            remaining_quantity: (taker.remaining_quantity - quantity) as Quantity,
            ..taker
        };
        book.lemma_fill_wf(id, quantity);
        lemma_sweep_wf(book.traded(id, quantity, maker.price), left, limit, symbol);
    }
}

/// Every trade of a sweep happens at the price at which its maker rested
/// when the sweep began, and that price is within the taker's limit.
pub proof fn lemma_trades_at_maker_price(
    book: BookState,
    taker: OrderEntry,
    limit: Option<Price>,
    symbol: String,
)
    requires
        book.wf(),
    ensures
        ({
            let sw = book.sweep(taker, limit, symbol);
            forall|i: int|
                #![trigger sw.trades[i]]
                0 <= i < sw.trades.len() ==> {
                    &&& book.orders.contains_key(sw.trades[i].maker_order_id)
                    &&& sw.trades[i].price == book.orders[sw.trades[i].maker_order_id].price
                    &&& marketable(taker.side, limit, sw.trades[i].price)
                    &&& sw.trades[i].taker_order_id == taker.order_id
                    &&& sw.trades[i].quantity > 0
                }
        }),
    decreases taker.remaining_quantity,
{
    let sw = book.sweep(taker, limit, symbol);
    if !book.sweep_stops(taker, limit) {
        lemma_extremes(book.bids.dom());
        lemma_extremes(book.asks.dom());
        let id = book.next_match_candidate(taker.side)->0;
        let best = book.best(taker.side.opposite())->0;
        assert(book.ladder(taker.side.opposite()).contains_key(best));
        assert(book.ladder(taker.side.opposite())[best][0] == id);
        assert(book.orders.contains_key(id));
        let maker = book.orders[id];
        let quantity = min_quantity(taker.remaining_quantity, maker.remaining_quantity);
        let left = OrderEntry {
            remaining_quantity: (taker.remaining_quantity - quantity) as Quantity,
            ..taker
        };
        let next = book.traded(id, quantity, maker.price);
        book.lemma_fill_wf(id, quantity);
        lemma_trades_at_maker_price(next, left, limit, symbol);
        let rest = next.sweep(left, limit, symbol);
        assert forall|i: int| #![trigger sw.trades[i]] 0 <= i < sw.trades.len() implies {
            &&& book.orders.contains_key(sw.trades[i].maker_order_id)
            &&& sw.trades[i].price == book.orders[sw.trades[i].maker_order_id].price
            &&& marketable(taker.side, limit, sw.trades[i].price)
            &&& sw.trades[i].taker_order_id == taker.order_id
            &&& sw.trades[i].quantity > 0
        } by {
            if i > 0 {
                assert(sw.trades[i] == rest.trades[i - 1]);
                let m = rest.trades[i - 1].maker_order_id;
                assert(next.orders.contains_key(m));
                assert(book.entry_ok(id));
            } else {
                assert(book.entry_ok(id));
            }
        }
    }
}

/// The trades of a sweep are numbered one after another from the book's
/// next trade id, and the book moves on by as many ids as there were
/// trades.
pub proof fn lemma_trade_ids_contiguous(
    book: BookState,
    taker: OrderEntry,
    limit: Option<Price>,
    symbol: String,
)
    requires
        book.next_trade_id + book.sweep(taker, limit, symbol).trades.len() <= u64::MAX,
    ensures
        ({
            let sw = book.sweep(taker, limit, symbol);
            &&& sw.book.next_trade_id == book.next_trade_id + sw.trades.len()
            &&& forall|i: int|
                #![trigger sw.trades[i]]
                0 <= i < sw.trades.len() ==> sw.trades[i].trade_id == book.next_trade_id + i
            &&& forall|i: int, j: int|
                #![trigger sw.trades[i], sw.trades[j]]
                0 <= i < j < sw.trades.len() ==> sw.trades[i].trade_id < sw.trades[j].trade_id
        }),
    decreases taker.remaining_quantity,
{
    let sw = book.sweep(taker, limit, symbol);
    if !book.sweep_stops(taker, limit) {
        let id = book.next_match_candidate(taker.side)->0;
        let maker = book.orders[id];
        let quantity = min_quantity(taker.remaining_quantity, maker.remaining_quantity);
        let left = OrderEntry {
            remaining_quantity: (taker.remaining_quantity - quantity) as Quantity,
            ..taker
        };
        let next = book.traded(id, quantity, maker.price);
        let rest = next.sweep(left, limit, symbol);
        assert(sw.trades.len() == rest.trades.len() + 1);
        lemma_trade_ids_contiguous(next, left, limit, symbol);
        assert forall|i: int| #![trigger sw.trades[i]] 0 <= i < sw.trades.len() implies sw.trades[i].trade_id
            == book.next_trade_id + i by {
            if i > 0 {
                assert(sw.trades[i] == rest.trades[i - 1]);
            }
        }
    }
}

/// What a sweep trades and what it leaves of the taker add up to what the
/// taker brought; the taker's fills count its open quantity down to what
/// is left.
pub proof fn lemma_taker_quantity(
    book: BookState,
    taker: OrderEntry,
    limit: Option<Price>,
    symbol: String,
)
    ensures
        ({
            let sw = book.sweep(taker, limit, symbol);
            &&& traded_quantity(sw.trades) + sw.remaining == taker.remaining_quantity
            &&& sw.fills.len() == 2 * sw.trades.len()
            &&& sw.trades.len() > 0 ==> sw.fills.last().remaining_quantity == sw.remaining
            &&& forall|i: int|
                #![trigger sw.trades[i]]
                0 <= i < sw.trades.len() ==> {
                    &&& sw.fills[2 * i + 1].filled_quantity == sw.trades[i].quantity
                    &&& sw.fills[2 * i + 1].remaining_quantity + traded_quantity(
                        sw.trades.take(i + 1),
                    ) == taker.remaining_quantity
                }
        }),
    decreases taker.remaining_quantity,
{
    let sw = book.sweep(taker, limit, symbol);
    if !book.sweep_stops(taker, limit) {
        let id = book.next_match_candidate(taker.side)->0;
        let maker = book.orders[id];
        let quantity = min_quantity(taker.remaining_quantity, maker.remaining_quantity);
        let left = OrderEntry {
            remaining_quantity: (taker.remaining_quantity - quantity) as Quantity,
            ..taker
        };
        let next = book.traded(id, quantity, maker.price);
        let rest = next.sweep(left, limit, symbol);
        lemma_taker_quantity(next, left, limit, symbol);
        assert(sw.trades.drop_first() =~= rest.trades);
        assert(sw.trades[0].quantity == quantity);
        assert(traded_quantity(sw.trades) == quantity + traded_quantity(rest.trades));
        assert(sw.fills.len() == rest.fills.len() + 2);
        if rest.trades.len() > 0 {
            assert(sw.fills.last() == rest.fills.last());
        } else {
            assert(rest.remaining == left.remaining_quantity);
            assert(sw.fills.last() == sw.fills[1]);
        }
        assert forall|i: int| #![trigger sw.trades[i]] 0 <= i < sw.trades.len() implies {
            &&& sw.fills[2 * i + 1].filled_quantity == sw.trades[i].quantity
            &&& sw.fills[2 * i + 1].remaining_quantity + traded_quantity(sw.trades.take(i + 1))
                == taker.remaining_quantity
        } by {
            let head = sw.trades.take(i + 1);
            assert(head[0] == sw.trades[0]);
            assert(traded_quantity(head) == quantity + traded_quantity(head.drop_first()));
            if i > 0 {
                assert(sw.fills[2 * i + 1] == rest.fills[2 * (i - 1) + 1]);
                assert(head.drop_first() =~= rest.trades.take(i));
                assert(rest.trades[i - 1] == sw.trades[i]);
            } else {
                assert(head.drop_first() =~= Seq::<Trade>::empty());
                assert(traded_quantity(head.drop_first()) == 0);
            }
        }
    }
}

/// Only trades move the numbering on: a match moves it by the number of
/// its trades, and resting or removing an order leaves it where it was.
pub proof fn lemma_numbering_moves_with_trades(
    book: BookState,
    order: OrderEntry,
    limit: Option<Price>,
    symbol: String,
    id: OrderId,
)
    requires
        book.next_trade_id + book.sweep(order, limit, symbol).trades.len() <= u64::MAX,
    ensures
        matched(book, order, limit, symbol).next_trade_id == book.next_trade_id + book.sweep(
            order,
            limit,
            symbol,
        ).trades.len(),
        book.rest(order).next_trade_id == book.next_trade_id,
        book.remove(id).next_trade_id == book.next_trade_id,
{
    lemma_trade_ids_contiguous(book, order, limit, symbol);
}

/// The trades of a later match are numbered above those of an earlier one:
/// where the numbering of `later` has not fallen behind that which the
/// sweep of `book` left, every trade of a sweep of `later` has a greater
/// number than every trade of the sweep of `book`.
pub proof fn lemma_later_trades_numbered_higher(
    book: BookState,
    taker: OrderEntry,
    limit: Option<Price>,
    later: BookState,
    later_taker: OrderEntry,
    later_limit: Option<Price>,
    symbol: String,
)
    requires
        later.next_trade_id >= book.sweep(taker, limit, symbol).book.next_trade_id,
        later.next_trade_id + later.sweep(later_taker, later_limit, symbol).trades.len()
            <= u64::MAX,
    ensures
        ({
            let first = book.sweep(taker, limit, symbol);
            let second = later.sweep(later_taker, later_limit, symbol);
            forall|i: int, j: int|
                #![trigger first.trades[i], second.trades[j]]
                0 <= i < first.trades.len() && 0 <= j < second.trades.len()
                    ==> first.trades[i].trade_id < second.trades[j].trade_id
        }),
{
    lemma_numbering_grows(book, taker, limit, symbol);
    lemma_trade_ids_contiguous(book, taker, limit, symbol);
    lemma_trade_ids_contiguous(later, later_taker, later_limit, symbol);
}

/// A sweep moves the numbering on by the number of its trades.
pub proof fn lemma_numbering_grows(
    book: BookState,
    taker: OrderEntry,
    limit: Option<Price>,
    symbol: String,
)
    ensures
        book.sweep(taker, limit, symbol).book.next_trade_id == book.next_trade_id + book.sweep(
            taker,
            limit,
            symbol,
        ).trades.len(),
    decreases taker.remaining_quantity,
{
    if !book.sweep_stops(taker, limit) {
        let id = book.next_match_candidate(taker.side)->0;
        let maker = book.orders[id];
        let quantity = min_quantity(taker.remaining_quantity, maker.remaining_quantity);
        let left = OrderEntry {
            remaining_quantity: (taker.remaining_quantity - quantity) as Quantity,
            ..taker
        };
        lemma_numbering_grows(book.traded(id, quantity, maker.price), left, limit, symbol);
    }
}

/// No resting order is filled beyond what it has open: every trade of a
/// sweep takes from its maker no more than the maker had open when the
/// sweep began, the maker's fill reports what is left of that, and no maker
/// trades twice in one sweep.
pub proof fn lemma_maker_quantity(
    book: BookState,
    taker: OrderEntry,
    limit: Option<Price>,
    symbol: String,
)
    requires
        book.wf(),
    ensures
        ({
            let sw = book.sweep(taker, limit, symbol);
            &&& sw.fills.len() == 2 * sw.trades.len()
            &&& forall|i: int|
                #![trigger sw.trades[i]]
                0 <= i < sw.trades.len() ==> {
                    let maker = book.orders[sw.trades[i].maker_order_id];
                    &&& book.orders.contains_key(sw.trades[i].maker_order_id)
                    &&& sw.fills[2 * i].order_id == sw.trades[i].maker_order_id
                    &&& sw.fills[2 * i].filled_quantity == sw.trades[i].quantity
                    &&& sw.fills[2 * i].filled_quantity + sw.fills[2 * i].remaining_quantity
                        == maker.remaining_quantity
                    &&& maker.remaining_quantity <= maker.quantity
                    &&& sw.fills[2 * i].remaining_quantity == 0 <==> !sw.book.orders.contains_key(
                        sw.trades[i].maker_order_id,
                    )
                }
            &&& forall|i: int, j: int|
                #![trigger sw.trades[i], sw.trades[j]]
                0 <= i < j < sw.trades.len() ==> sw.trades[i].maker_order_id
                    != sw.trades[j].maker_order_id
            &&& forall|id: OrderId| #[trigger]
                sw.book.orders.contains_key(id) ==> book.orders.contains_key(id)
        }),
    decreases taker.remaining_quantity,
{
    let sw = book.sweep(taker, limit, symbol);
    if !book.sweep_stops(taker, limit) {
        lemma_extremes(book.bids.dom());
        lemma_extremes(book.asks.dom());
        let id = book.next_match_candidate(taker.side)->0;
        let best = book.best(taker.side.opposite())->0;
        assert(book.ladder(taker.side.opposite()).contains_key(best));
        assert(book.ladder(taker.side.opposite())[best][0] == id);
        assert(book.orders.contains_key(id));
        assert(book.entry_ok(id));
        let maker = book.orders[id];
        let quantity = min_quantity(taker.remaining_quantity, maker.remaining_quantity);
        let left = OrderEntry {
            remaining_quantity: (taker.remaining_quantity - quantity) as Quantity,
            ..taker
        };
        let next = book.traded(id, quantity, maker.price);
        book.lemma_fill_wf(id, quantity);
        lemma_maker_quantity(next, left, limit, symbol);
        let rest = next.sweep(left, limit, symbol);
        assert(sw.book == rest.book);
        assert(sw.fills.len() == rest.fills.len() + 2);
        // a maker that is still in the book has taken all of the taker
        if next.orders.contains_key(id) {
            assert(quantity < maker.remaining_quantity);
            assert(left.remaining_quantity == 0);
            assert(rest.trades.len() == 0);
        }
        assert forall|k: OrderId| #[trigger] sw.book.orders.contains_key(k) implies book.orders.contains_key(
            k,
        ) by {
            assert(next.orders.contains_key(k));
        }
        assert forall|i: int| #![trigger sw.trades[i]] 0 <= i < sw.trades.len() implies {
            let m = book.orders[sw.trades[i].maker_order_id];
            &&& book.orders.contains_key(sw.trades[i].maker_order_id)
            &&& sw.fills[2 * i].order_id == sw.trades[i].maker_order_id
            &&& sw.fills[2 * i].filled_quantity == sw.trades[i].quantity
            &&& sw.fills[2 * i].filled_quantity + sw.fills[2 * i].remaining_quantity
                == m.remaining_quantity
            &&& m.remaining_quantity <= m.quantity
            &&& sw.fills[2 * i].remaining_quantity == 0 <==> !sw.book.orders.contains_key(
                sw.trades[i].maker_order_id,
            )
        } by {
            if i > 0 {
                assert(sw.trades[i] == rest.trades[i - 1]);
                assert(sw.fills[2 * i] == rest.fills[2 * (i - 1)]);
                let m = rest.trades[i - 1].maker_order_id;
                assert(next.orders.contains_key(m));
                assert(m != id);
                assert(next.orders[m] == book.orders[m]);
                assert(book.entry_ok(m));
            } else {
                assert(sw.trades[0].maker_order_id == id);
                if quantity == maker.remaining_quantity {
                    assert(!next.orders.contains_key(id));
                    if rest.book.orders.contains_key(id) {
                        assert(next.orders.contains_key(id));
                    }
                } else {
                    assert(rest.book == next);
                }
            }
        }
        assert forall|i: int, j: int|
            #![trigger sw.trades[i], sw.trades[j]]
            0 <= i < j < sw.trades.len() implies sw.trades[i].maker_order_id
            != sw.trades[j].maker_order_id by {
            assert(sw.trades[j] == rest.trades[j - 1]);
            if i > 0 {
                assert(sw.trades[i] == rest.trades[i - 1]);
            } else {
                assert(next.orders.contains_key(rest.trades[j - 1].maker_order_id));
            }
        }
    }
}

} // verus!
