//! The engine: one book per symbol, one command at a time.

use vstd::prelude::*;
use crate::clock::now_millis;
use crate::orderbook::book::{OrderBook, OrderEntry};
use crate::orderbook::error::OrderBookError;
use crate::orderbook::matching::{matched, same_top, top_changed};
use crate::orderbook::state::BookState;
use crate::orderbook::types::{Depth, CACHE_LIMIT};
use crate::protocol::{
    BookUpdate, CancelOrder, CancelReason, Event, Fill, Order, OrderAck, OrderCancelled,
    OrderCommand, OrderId, OrderReject, OrderType, Price, RejectReason, Side, Trade, UserId,
};

verus! {

/// The events of a sweep in the order they are emitted: each trade,
/// followed by the maker's fill and then the taker's.
pub open spec fn interleaved(trades: Seq<Trade>, fills: Seq<Fill>) -> Seq<Event> {
    Seq::new(
        3 * trades.len(),
        |k: int|
            if k % 3 == 0 {
                Event::Trade(trades[k / 3])
            } else if k % 3 == 1 {
                Event::Fill(fills[2 * (k / 3)])
            } else {
                Event::Fill(fills[2 * (k / 3) + 1])
            },
    )
}

/// `events` is a single reject of the order `order_id` of `user_id` on
/// `symbol`, for `reason` and with `message`.
pub open spec fn rejects(
    events: Seq<Event>,
    order_id: OrderId,
    user_id: UserId,
    symbol: Seq<char>,
    reason: RejectReason,
    message: Seq<char>,
) -> bool {
    &&& events.len() == 1
    &&& events[0] matches Event::OrderReject(r) && {
        &&& r.order_id == order_id
        &&& r.user_id == user_id
        &&& r.symbol@ == symbol
        &&& r.reason == reason
        &&& r.message@ == message
    }
}

/// `events` ends with a snapshot of `after` exactly when the top of the
/// book differs between `before` and `after`, and holds `head` before it.
pub open spec fn with_book_update(
    events: Seq<Event>,
    head: Seq<Event>,
    before: BookState,
    after: BookState,
    symbol: String,
) -> bool {
    if top_changed(before, after) {
        &&& events.len() == head.len() + 1
        &&& events.take(head.len() as int) == head
        &&& events.last() matches Event::BookUpdate(u) && after.is_shown_by(
            u,
            symbol,
            CACHE_LIMIT as nat,
        )
    } else {
        events == head
    }
}

/// The order as it enters a book at time `now`. A market order carries no
/// price into the book.
pub open spec fn entry_of(order: Order, now: i64) -> OrderEntry {
    OrderEntry {
        order_id: order.order_id,
        user_id: order.user_id,
        side: order.side,
        price: match order.price {
            Some(p) => if order.order_type is Limit {
                p
            } else {
                0
            },
            None => 0,
        },
        quantity: order.quantity,
        remaining_quantity: order.quantity,
        timestamp: now,
    }
}

/// The price bound under which the order trades: its price for a limit
/// order, none for a market order.
pub open spec fn limit_of(order: Order) -> Option<Price> {
    match order.order_type {
        OrderType::Limit => Some(entry_of(order, 0).price),
        OrderType::Market => None,
    }
}

pub open spec fn symbol_message() -> Seq<char> {
    "Symbol not found"@
}

pub open spec fn quantity_message() -> Seq<char> {
    "Quantity must be greater than 0"@
}

pub open spec fn price_message() -> Seq<char> {
    "Price must be greater than 0"@
}

pub open spec fn duplicate_message() -> Seq<char> {
    "Order id is already in the book"@
}

pub open spec fn exhausted_message() -> Seq<char> {
    "Trade ids are exhausted"@
}

pub open spec fn not_found_message() -> Seq<char> {
    "Order not found"@
}

/// What is wrong with `order` in itself, with the message that says so;
/// none when it is sound. The quantity is looked at first, then the price:
/// an order must have a positive quantity, and a limit order a positive
/// price.
pub open spec fn malformed(order: Order) -> Option<(RejectReason, Seq<char>)> {
    if order.quantity == 0 {
        Some((RejectReason::InvalidQuantity, quantity_message()))
    } else if order.order_type is Limit && (order.price is None || order.price == Some(0u64)) {
        Some((RejectReason::InvalidPrice, price_message()))
    } else {
        None
    }
}

/// Why `book` cannot take in the sound order `order`, with the message that
/// says so; none when it can. The id is looked at first, then the trade
/// ids.
pub open spec fn refusal(book: &OrderBook, order: Order) -> Option<(RejectReason, Seq<char>)> {
    if book@.orders.contains_key(order.order_id) {
        Some((RejectReason::InvalidOrder, duplicate_message()))
    } else if !book.has_trade_ids() {
        Some((RejectReason::InternalError, exhausted_message()))
    } else {
        None
    }
}

/// What placing `order` at time `now` did: it took the engine from
/// `before` to `after` and emitted `events`.
///
/// The first failing check decides the answer: the order's quantity, its
/// price, its symbol, its id, the trade ids of its book. An order that
/// fails one is answered by a single reject and changes nothing. Any other
/// order is acknowledged and matched in the book of its symbol; the sweep's
/// events follow the acknowledgement, and a snapshot of the book ends the
/// run when the top of the book has changed.
pub open spec fn placed(
    before: &Engine,
    after: &Engine,
    order: Order,
    now: i64,
    events: Seq<Event>,
) -> bool {
    match malformed(order) {
        Some((reason, message)) => {
            &&& after.books() == before.books()
            &&& rejects(events, order.order_id, order.user_id, order.symbol@, reason, message)
        },
        None => match before.position(order.symbol@) {
            None => {
                &&& after.books() == before.books()
                &&& rejects(
                    events,
                    order.order_id,
                    order.user_id,
                    order.symbol@,
                    RejectReason::SymbolNotFound,
                    symbol_message(),
                )
            },
            Some(i) => {
                let book = before.books()[i];
                &&& after.same_but(before, i)
                &&& match refusal(&book, order) {
                    Some((reason, message)) => {
                        &&& after.books()[i] == book
                        &&& rejects(
                            events,
                            order.order_id,
                            order.user_id,
                            order.symbol@,
                            reason,
                            message,
                        )
                    },
                    None => {
                        let entry = entry_of(order, now);
                        let limit = limit_of(order);
                        let sw = book@.sweep(entry, limit, book.spec_symbol());
                        let ack = Event::OrderAck(
                            OrderAck {
                                order_id: order.order_id,
                                user_id: order.user_id,
                                symbol: order.symbol,
                            },
                        );
                        &&& after.books()[i]@ == matched(book@, entry, limit, book.spec_symbol())
                        &&& with_book_update(
                            events,
                            seq![ack] + interleaved(sw.trades, sw.fills),
                            book@,
                            after.books()[i]@,
                            book.spec_symbol(),
                        )
                    },
                }
            },
        },
    }
}

/// What cancelling did: it took the engine from `before` to `after` and
/// emitted `events`.
///
/// A cancel for an order that does not rest in the book of the symbol, or
/// that rests there for another user, is answered by a single reject and
/// changes nothing. Any other cancel takes the order out of its book and is
/// answered by the cancellation, followed by a snapshot of the book when the
/// top of the book has changed.
pub open spec fn cancelled(
    before: &Engine,
    after: &Engine,
    cancel: CancelOrder,
    events: Seq<Event>,
) -> bool {
    let refused = rejects(
        events,
        cancel.order_id,
        cancel.user_id,
        cancel.symbol@,
        RejectReason::InvalidOrder,
        not_found_message(),
    );
    match before.position(cancel.symbol@) {
        None => after.books() == before.books() && refused,
        Some(i) => {
            let book = before.books()[i];
            &&& after.same_but(before, i)
            &&& if book@.orders.contains_key(cancel.order_id)
                && book@.orders[cancel.order_id].user_id == cancel.user_id {
                let done = Event::OrderCancelled(
                    OrderCancelled {
                        order_id: cancel.order_id,
                        user_id: cancel.user_id,
                        symbol: cancel.symbol,
                        reason: CancelReason::UserRequested,
                    },
                );
                &&& after.books()[i]@ == book@.remove(cancel.order_id)
                &&& with_book_update(
                    events,
                    seq![done],
                    book@,
                    after.books()[i]@,
                    book.spec_symbol(),
                )
            } else {
                after.books()[i] == book && refused
            }
        },
    }
}

/// What asking for `limit` levels of depth on `symbol` did: it took the
/// engine from `before` to `after` and answered `depth`. The books hold what
/// they held; a symbol without a book gets no answer.
pub open spec fn depth_given(
    before: &Engine,
    after: &Engine,
    symbol: Seq<char>,
    limit: usize,
    depth: Option<Depth>,
) -> bool {
    let levels = if limit <= CACHE_LIMIT {
        limit as nat
    } else {
        CACHE_LIMIT as nat
    };
    match before.position(symbol) {
        None => after.books() == before.books() && depth is None,
        Some(i) => {
            &&& after.same_but(before, i)
            &&& after.books()[i]@ == before.books()[i]@
            &&& depth matches Some(d) && {
                &&& d.bids@ == before.books()[i]@.depth_side(Side::Buy, levels)
                &&& d.asks@ == before.books()[i]@.depth_side(Side::Sell, levels)
            }
        },
    }
}

/// Where a symbol's book is does not depend on what the books hold.
pub proof fn lemma_position_kept(before: &Engine, after: &Engine, at: int, symbol: Seq<char>)
    requires
        before.wf(),
        after.same_but(before, at),
    ensures
        after.position(symbol) == before.position(symbol),
{
    assert forall|i: int| before.holds_at(symbol, i) == after.holds_at(symbol, i) by {
        if 0 <= i < before.books().len() {
            assert(after.books()[i].spec_symbol() == before.books()[i].spec_symbol());
        }
    }
    if exists|i: int| before.holds_at(symbol, i) {
        let b = choose|i: int| before.holds_at(symbol, i);
        assert(after.holds_at(symbol, b));
        let a = choose|i: int| after.holds_at(symbol, i);
        assert(before.holds_at(symbol, a));
        if a < b {
            assert(before.books()[a].spec_symbol()@ != before.books()[b].spec_symbol()@);
        } else if b < a {
            assert(before.books()[b].spec_symbol()@ != before.books()[a].spec_symbol()@);
        }
    } else {
        assert forall|i: int| !after.holds_at(symbol, i) by {
            assert(!before.holds_at(symbol, i));
        }
    }
}

/// Cancelling an order that has been cancelled is refused and changes
/// nothing: when a cancel has taken an order out of its book, a second
/// cancel that names the same order on the same symbol, for whichever
/// user, is answered by a single reject and leaves every book as it was.
pub proof fn lemma_cancel_again(
    before: &Engine,
    between: &Engine,
    after: &Engine,
    first: CancelOrder,
    first_events: Seq<Event>,
    second: CancelOrder,
    second_events: Seq<Event>,
)
    requires
        before.wf(),
        cancelled(before, between, first, first_events),
        cancelled(between, after, second, second_events),
        first.order_id == second.order_id,
        first.symbol@ == second.symbol@,
        first_events.len() > 0 && first_events[0] is OrderCancelled,
    ensures
        after.books() == between.books(),
        rejects(
            second_events,
            second.order_id,
            second.user_id,
            second.symbol@,
            RejectReason::InvalidOrder,
            not_found_message(),
        ),
{
    match before.position(first.symbol@) {
        None => {},
        Some(i) => {
            lemma_position_kept(before, between, i, first.symbol@);
            assert(before.holds_at(first.symbol@, i));
            assert(before.books()[i].wf());
            let book = before.books()[i];
            if book@.orders.contains_key(first.order_id) && book@.orders[first.order_id].user_id
                == first.user_id {
                assert(!between.books()[i]@.orders.contains_key(second.order_id));
                assert(after.books() =~= between.books());
            }
        },
    }
}

/// An order that is not resting in the book of its symbol cannot be
/// cancelled: the cancel is answered by a single reject and leaves every
/// book as it was. This holds of an order that has been filled as of one
/// that never was placed.
pub proof fn lemma_cancel_absent(
    before: &Engine,
    after: &Engine,
    cancel: CancelOrder,
    events: Seq<Event>,
)
    requires
        before.wf(),
        cancelled(before, after, cancel, events),
        match before.position(cancel.symbol@) {
            Some(i) => !before.books()[i]@.orders.contains_key(cancel.order_id),
            None => true,
        },
    ensures
        after.books() == before.books(),
        rejects(
            events,
            cancel.order_id,
            cancel.user_id,
            cancel.symbol@,
            RejectReason::InvalidOrder,
            not_found_message(),
        ),
{
    match before.position(cancel.symbol@) {
        None => {},
        Some(i) => {
            assert(after.books() =~= before.books());
        },
    }
}

/// What answers a command: the events to emit, in order, and the depth
/// where the command asked for one.
#[derive(Clone, Debug)]
pub struct CommandOutcome {
    pub events: Vec<Event>,
    pub depth: Option<Depth>,
}

/// The matching engine. It owns one book per symbol and handles one
/// command at a time, so its events depend on the order of the commands
/// alone.
pub struct Engine {
    books: Vec<OrderBook>,
}

impl Engine {
    /// The books, in the order their symbols were added.
    pub closed spec fn books(&self) -> Seq<OrderBook> {
        self.books@
    }

    /// Where the book of `symbol` is, if the engine has one.
    pub open spec fn position(&self, symbol: Seq<char>) -> Option<int> {
        if exists|i: int| self.holds_at(symbol, i) {
            Some(choose|i: int| self.holds_at(symbol, i))
        } else {
            None
        }
    }

    pub open spec fn holds_at(&self, symbol: Seq<char>, i: int) -> bool {
        0 <= i < self.books().len() && self.books()[i].spec_symbol()@ == symbol
    }

    /// Every book is consistent and no two books share a symbol.
    pub open spec fn wf(&self) -> bool {
        &&& forall|i: int| 0 <= i < self.books().len() ==> (#[trigger] self.books()[i]).wf()
        &&& forall|i: int, j: int|
            0 <= i < j < self.books().len() ==> (#[trigger] self.books()[i]).spec_symbol()@ != (
            #[trigger] self.books()[j]).spec_symbol()@
    }

    /// The symbols are what they were and every book but the one at `at`
    /// is untouched.
    pub open spec fn same_but(&self, before: &Engine, at: int) -> bool {
        &&& self.books().len() == before.books().len()
        &&& forall|j: int|
            0 <= j < before.books().len() ==> (#[trigger] self.books()[j]).spec_symbol()
                == before.books()[j].spec_symbol()
        &&& forall|j: int|
            0 <= j < before.books().len() && j != at ==> #[trigger] self.books()[j]
                == before.books()[j]
    }

    /// An engine without symbols.
    pub fn new() -> (engine: Engine)
        ensures
            engine.wf(),
            engine.books().len() == 0,
    {
        Engine { books: Vec::new() }
    }

    /// Opens an empty book for `symbol`, unless the engine has one already.
    /// Says whether it opened one.
    pub fn add_symbol(&mut self, symbol: &String) -> (added: bool)
        requires
            old(self).wf(),
        ensures
            final(self).wf(),
            added == (old(self).position(symbol@) is None),
            !added ==> *final(self) == *old(self),
            added ==> {
                &&& final(self).books().len() == old(self).books().len() + 1
                &&& final(self).books().take(old(self).books().len() as int) == old(self).books()
                &&& final(self).books().last().spec_symbol()@ == symbol@
                &&& final(self).books().last()@.orders == Map::<OrderId, OrderEntry>::empty()
                &&& final(self).books().last()@.next_trade_id == 0
            },
    {
        let book = OrderBook::new(symbol.as_str());
        self.add_book(book)
    }

    /// Takes in `book`, unless the engine has a book for its symbol already.
    /// Says whether it took it.
    pub fn add_book(&mut self, book: OrderBook) -> (added: bool)
        requires
            old(self).wf(),
            book.wf(),
        ensures
            final(self).wf(),
            added == (old(self).position(book.spec_symbol()@) is None),
            !added ==> *final(self) == *old(self),
            added ==> final(self).books() == old(self).books().push(book),
    {
        let symbol = book.symbol();
        match self.find(&symbol) {
            Some(_) => false,
            None => {
                self.books.push(book);
                proof {
                    assert forall|i: int| 0 <= i < old(self).books().len() implies old(
                        self,
                    ).books()[i].spec_symbol()@ != symbol@ by {
                        if old(self).books()[i].spec_symbol()@ == symbol@ {
                            assert(old(self).holds_at(symbol@, i));
                        }
                    }
                    assert forall|i: int| 0 <= i < self.books().len() implies (
                    #[trigger] self.books()[i]).wf() by {
                        if i < old(self).books().len() {
                            assert(self.books()[i] == old(self).books()[i]);
                        }
                    }
                }
                true
            },
        }
    }

    /// Where the book of `symbol` is.
    fn find(&self, symbol: &String) -> (found: Option<usize>)
        requires
            self.wf(),
        ensures
            match found {
                Some(i) => self.holds_at(symbol@, i as int) && self.position(symbol@) == Some(
                    i as int,
                ),
                None => self.position(symbol@) is None,
            },
    {
        let mut i: usize = 0;
        while i < self.books.len()
            invariant
                self.wf(),
                i <= self.books@.len(),
                forall|j: int| 0 <= j < i ==> !self.holds_at(symbol@, j),
            decreases self.books@.len() - i,
        {
            if self.books[i].has_symbol(symbol) {
                proof {
                    assert(self.holds_at(symbol@, i as int));
                    let c = choose|c: int| self.holds_at(symbol@, c);
                    assert(self.holds_at(symbol@, c));
                    if c < i {
                        assert(self.books()[c].spec_symbol()@ != self.books()[i as int].spec_symbol()@);
                    } else if c > i {
                        assert(self.books()[i as int].spec_symbol()@ != self.books()[c].spec_symbol()@);
                    }
                }
                return Some(i);
            }
            i = i + 1;
        }
        None
    }

    /// How many symbols the engine trades.
    pub fn symbol_count(&self) -> (count: usize)
        ensures
            count == self.books().len(),
    {
        self.books.len()
    }

    /// The book of `symbol`.
    pub fn book(&self, symbol: &String) -> (book: Option<&OrderBook>)
        requires
            self.wf(),
        ensures
            match book {
                Some(b) => self.position(symbol@) matches Some(i) && *b == self.books()[i],
                None => self.position(symbol@) is None,
            },
    {
        match self.find(symbol) {
            Some(i) => Some(&self.books[i]),
            None => None,
        }
    }

    /// Places `order` as of time `now`.
    pub fn handle_place_order_at(&mut self, order: Order, now: i64) -> (events: Vec<Event>)
        requires
            old(self).wf(),
        ensures
            final(self).wf(),
            placed(old(self), final(self), order, now, events@),
    {
        if order.quantity == 0 {
            return reject(
                order.order_id,
                order.user_id,
                order.symbol,
                RejectReason::InvalidQuantity,
                "Quantity must be greater than 0",
            );
        }
        let price: Price = match order.order_type {
            OrderType::Market => 0,
            OrderType::Limit => match order.price {
                None => 0,
                Some(p) => p,
            },
        };
        let is_limit = match order.order_type {
            OrderType::Market => false,
            OrderType::Limit => true,
        };
        if is_limit && price == 0 {
            return reject(
                order.order_id,
                order.user_id,
                order.symbol,
                RejectReason::InvalidPrice,
                "Price must be greater than 0",
            );
        }
        let at = match self.find(&order.symbol) {
            None => {
                return reject(
                    order.order_id,
                    order.user_id,
                    order.symbol,
                    RejectReason::SymbolNotFound,
                    "Symbol not found",
                );
            },
            Some(at) => at,
        };
        let ghost book = self.books@[at as int];
        let entry = OrderEntry::with_timestamp(
            order.order_id,
            order.user_id,
            order.side,
            price,
            order.quantity,
            now,
        );
        let result = if is_limit {
            self.books[at].match_limit_order(entry)
        } else {
            self.books[at].match_market_order(entry)
        };
        proof {
            assert(self.same_but(old(self), at as int));
            assert forall|i: int| 0 <= i < self.books().len() implies (#[trigger] self.books()[i]).wf() by {
                if i != at {
                    assert(self.books()[i] == old(self).books()[i]);
                }
            }
            assert forall|i: int, j: int| 0 <= i < j < self.books().len() implies (
            #[trigger] self.books()[i]).spec_symbol()@ != (#[trigger] self.books()[j]).spec_symbol()@ by {
                assert(self.books()[i].spec_symbol() == old(self).books()[i].spec_symbol());
                assert(self.books()[j].spec_symbol() == old(self).books()[j].spec_symbol());
            }
        }
        let matched = match result {
            Ok(matched) => matched,
            Err(OrderBookError::InvalidOrder(message)) => {
                return reject(
                    order.order_id,
                    order.user_id,
                    order.symbol,
                    RejectReason::InvalidOrder,
                    message.as_str(),
                );
            },
            Err(_) => {
                return reject(
                    order.order_id,
                    order.user_id,
                    order.symbol,
                    RejectReason::InternalError,
                    "Trade ids are exhausted",
                );
            },
        };
        proof {
            book@.lemma_fills_pair_with_trades(entry, limit_of(order), book.spec_symbol());
        }
        let mut events: Vec<Event> = Vec::new();
        events.push(
            Event::OrderAck(
                OrderAck { order_id: order.order_id, user_id: order.user_id, symbol: order.symbol },
            ),
        );
        let ghost ack = events@[0];
        let mut k: usize = 0;
        let fills: usize = matched.fills.len();
        proof {
            assert(events@ =~= seq![ack] + interleaved(
                matched.trades@.take(0),
                matched.fills@.take(0),
            ));
        }
        while k < matched.trades.len()
            invariant
                k <= matched.trades@.len(),
                matched.fills@.len() == 2 * matched.trades@.len(),
                fills == matched.fills@.len(),
                events@ == seq![ack] + interleaved(
                    matched.trades@.take(k as int),
                    matched.fills@.take(2 * k),
                ),
            decreases matched.trades@.len() - k,
        {
            let ghost prior = events@;
            events.push(Event::Trade(copy_trade(&matched.trades[k])));
            events.push(Event::Fill(copy_fill(&matched.fills[2 * k])));
            events.push(Event::Fill(copy_fill(&matched.fills[2 * k + 1])));
            proof {
                let next = seq![ack] + interleaved(
                    matched.trades@.take(k + 1),
                    matched.fills@.take(2 * k + 2),
                );
                assert(events@.len() == next.len());
                assert forall|n: int| 0 <= n < next.len() implies events@[n] == next[n] by {
                    if n == 0 {
                    } else if n < 1 + 3 * k {
                        assert(events@[n] == prior[n]);
                        let m = n - 1;
                        assert(m / 3 < k);
                    } else {
                        let m = n - 1;
                        assert(m / 3 == k);
                    }
                }
                assert(events@ =~= next);
            }
            k = k + 1;
        }
        proof {
            assert(matched.trades@.take(k as int) =~= matched.trades@);
            assert(matched.fills@.take(2 * k) =~= matched.fills@);
        }
        let ghost head = events@;
        match matched.book_update {
            Some(update) => {
                events.push(Event::BookUpdate(update));
                proof {
                    assert(events@.take(head.len() as int) =~= head);
                }
            },
            None => {},
        }
        events
    }

    /// Places `order` as of the current time.
    pub fn handle_place_order(&mut self, order: Order) -> (events: Vec<Event>)
        requires
            old(self).wf(),
        ensures
            final(self).wf(),
            exists|now: i64| #[trigger] placed(old(self), final(self), order, now, events@),
    {
        let now: i64 = now_millis();
        self.handle_place_order_at(order, now)
    }

    /// Cancels the resting order that `cancel` names, for the user who
    /// placed it.
    pub fn handle_cancel_order(&mut self, cancel: CancelOrder) -> (events: Vec<Event>)
        requires
            old(self).wf(),
        ensures
            final(self).wf(),
            cancelled(old(self), final(self), cancel, events@),
    {
        let at = match self.find(&cancel.symbol) {
            None => {
                return reject(
                    cancel.order_id,
                    cancel.user_id,
                    cancel.symbol,
                    RejectReason::InvalidOrder,
                    "Order not found",
                );
            },
            Some(at) => at,
        };
        let owner = match self.books[at].get_order(cancel.order_id) {
            None => {
                return reject(
                    cancel.order_id,
                    cancel.user_id,
                    cancel.symbol,
                    RejectReason::InvalidOrder,
                    "Order not found",
                );
            },
            Some(resting) => resting.user_id,
        };
        if owner != cancel.user_id {
            return reject(
                    cancel.order_id,
                    cancel.user_id,
                    cancel.symbol,
                    RejectReason::InvalidOrder,
                    "Order not found",
                );
        }
        let bid_before = self.books[at].top_of_book(Side::Buy);
        let ask_before = self.books[at].top_of_book(Side::Sell);
        let _ = self.books[at].remove_order(cancel.order_id);
        let bid_after = self.books[at].top_of_book(Side::Buy);
        let ask_after = self.books[at].top_of_book(Side::Sell);
        let update = if same_top(bid_before, bid_after) && same_top(ask_before, ask_after) {
            None
        } else {
            Some(self.books[at].book_update())
        };
        proof {
            assert(self.same_but(old(self), at as int));
            assert forall|i: int| 0 <= i < self.books().len() implies (#[trigger] self.books()[i]).wf() by {
                if i != at {
                    assert(self.books()[i] == old(self).books()[i]);
                }
            }
            assert forall|i: int, j: int| 0 <= i < j < self.books().len() implies (
            #[trigger] self.books()[i]).spec_symbol()@ != (#[trigger] self.books()[j]).spec_symbol()@ by {
                assert(self.books()[i].spec_symbol() == old(self).books()[i].spec_symbol());
                assert(self.books()[j].spec_symbol() == old(self).books()[j].spec_symbol());
            }
        }
        let mut events: Vec<Event> = Vec::new();
        events.push(
            Event::OrderCancelled(
                OrderCancelled {
                    order_id: cancel.order_id,
                    user_id: cancel.user_id,
                    symbol: cancel.symbol,
                    reason: CancelReason::UserRequested,
                },
            ),
        );
        let ghost head = events@;
        match update {
            Some(update) => {
                events.push(Event::BookUpdate(update));
                proof {
                    assert(events@.take(head.len() as int) =~= head);
                }
            },
            None => {
                assert(events@ =~= head);
            },
        }
        events
    }

    /// The best `limit` levels of each side of the book of `symbol`.
    pub fn handle_get_depth(&mut self, symbol: &String, limit: usize) -> (depth: Option<Depth>)
        requires
            old(self).wf(),
        ensures
            final(self).wf(),
            depth_given(old(self), final(self), symbol@, limit, depth),
    {
        let at = match self.find(symbol) {
            None => {
                return None;
            },
            Some(at) => at,
        };
        let depth = self.books[at].get_depth(limit);
        proof {
            assert(self.same_but(old(self), at as int));
            assert forall|i: int| 0 <= i < self.books().len() implies (#[trigger] self.books()[i]).wf() by {
                if i != at {
                    assert(self.books()[i] == old(self).books()[i]);
                }
            }
            assert forall|i: int, j: int| 0 <= i < j < self.books().len() implies (
            #[trigger] self.books()[i]).spec_symbol()@ != (#[trigger] self.books()[j]).spec_symbol()@ by {
                assert(self.books()[i].spec_symbol() == old(self).books()[i].spec_symbol());
                assert(self.books()[j].spec_symbol() == old(self).books()[j].spec_symbol());
            }
        }
        Some(depth)
    }

    /// Handles one command as of time `now`.
    pub fn handle_command_at(&mut self, command: OrderCommand, now: i64) -> (outcome:
        CommandOutcome)
        requires
            old(self).wf(),
        ensures
            final(self).wf(),
            match command {
                OrderCommand::PlaceOrder(order) => outcome.depth is None && placed(
                    old(self),
                    final(self),
                    order,
                    now,
                    outcome.events@,
                ),
                OrderCommand::CancelOrder(cancel) => outcome.depth is None && cancelled(
                    old(self),
                    final(self),
                    cancel,
                    outcome.events@,
                ),
                OrderCommand::GetDepth { symbol, limit } => outcome.events@.len() == 0
                    && depth_given(old(self), final(self), symbol@, limit, outcome.depth),
            },
    {
        match command {
            OrderCommand::PlaceOrder(order) => CommandOutcome {
                events: self.handle_place_order_at(order, now),
                depth: None,
            },
            OrderCommand::CancelOrder(cancel) => CommandOutcome {
                events: self.handle_cancel_order(cancel),
                depth: None,
            },
            OrderCommand::GetDepth { symbol, limit } => CommandOutcome {
                events: Vec::new(),
                depth: self.handle_get_depth(&symbol, limit),
            },
        }
    }

    /// Handles one command as of the current time.
    pub fn handle_command(&mut self, command: OrderCommand) -> (outcome: CommandOutcome)
        requires
            old(self).wf(),
        ensures
            final(self).wf(),
            match command {
                OrderCommand::PlaceOrder(order) => outcome.depth is None && exists|now: i64| #[trigger]
                    placed(old(self), final(self), order, now, outcome.events@),
                OrderCommand::CancelOrder(cancel) => outcome.depth is None && cancelled(
                    old(self),
                    final(self),
                    cancel,
                    outcome.events@,
                ),
                OrderCommand::GetDepth { symbol, limit } => outcome.events@.len() == 0
                    && depth_given(old(self), final(self), symbol@, limit, outcome.depth),
            },
    {
        let now: i64 = now_millis();
        self.handle_command_at(command, now)
    }
}

impl Default for Engine {
    /// An engine without symbols.
    fn default() -> (engine: Engine)
        ensures
            engine.wf(),
            engine.books().len() == 0,
    {
        Engine::new()
    }
}

/// A single reject.
fn reject(
    order_id: OrderId,
    user_id: UserId,
    symbol: String,
    reason: RejectReason,
    message: &str,
) -> (events: Vec<Event>)
    ensures
        rejects(events@, order_id, user_id, symbol@, reason, message@),
{
    let mut events: Vec<Event> = Vec::new();
    events.push(
        Event::OrderReject(
            OrderReject { order_id, user_id, reason, message: message.to_owned(), symbol },
        ),
    );
    events
}

fn copy_trade(trade: &Trade) -> (copy: Trade)
    ensures
        copy == *trade,
{
    Trade {
        trade_id: trade.trade_id,
        maker_order_id: trade.maker_order_id,
        maker_user_id: trade.maker_user_id,
        taker_order_id: trade.taker_order_id,
        taker_user_id: trade.taker_user_id,
        symbol: trade.symbol.clone(),
        quantity: trade.quantity,
        price: trade.price,
        timestamp: trade.timestamp,
    }
}

fn copy_fill(fill: &Fill) -> (copy: Fill)
    ensures
        copy == *fill,
{
    Fill {
        order_id: fill.order_id,
        user_id: fill.user_id,
        symbol: fill.symbol.clone(),
        side: fill.side,
        filled_quantity: fill.filled_quantity,
        filled_price: fill.filled_price,
        remaining_quantity: fill.remaining_quantity,
    }
}

} // verus!
