//! The mathematical model of a book: what it holds, what keeps it
//! consistent, and what each operation does to it.

use vstd::prelude::*;
use crate::orderbook::book::OrderEntry;
use crate::orderbook::price_levels::{first_index_of, lemma_first_index_of_member};
use crate::protocol::{BookUpdate, OrderId, Price, PriceLevel, Quantity, Side};

verus! {

/// `p` is the greatest member of `prices`.
pub open spec fn is_highest(prices: Set<Price>, p: Price) -> bool {
    prices.contains(p) && forall|q: Price| prices.contains(q) ==> q <= p
}

/// `p` is the least member of `prices`.
pub open spec fn is_lowest(prices: Set<Price>, p: Price) -> bool {
    prices.contains(p) && forall|q: Price| prices.contains(q) ==> p <= q
}

/// The greatest member of `prices`, if it has one.
pub open spec fn highest(prices: Set<Price>) -> Option<Price> {
    if exists|p: Price| is_highest(prices, p) {
        Some(choose|p: Price| is_highest(prices, p))
    } else {
        None
    }
}

/// The least member of `prices`, if it has one.
pub open spec fn lowest(prices: Set<Price>) -> Option<Price> {
    if exists|p: Price| is_lowest(prices, p) {
        Some(choose|p: Price| is_lowest(prices, p))
    } else {
        None
    }
}

pub proof fn lemma_highest_is(prices: Set<Price>, p: Price)
    requires
        is_highest(prices, p),
    ensures
        highest(prices) == Some(p),
{
    let c = choose|c: Price| is_highest(prices, c);
    assert(is_highest(prices, c));
    assert(c <= p && p <= c);
}

pub proof fn lemma_lowest_is(prices: Set<Price>, p: Price)
    requires
        is_lowest(prices, p),
    ensures
        lowest(prices) == Some(p),
{
    let c = choose|c: Price| is_lowest(prices, c);
    assert(is_lowest(prices, c));
    assert(c <= p && p <= c);
}

/// A set of prices with a member has a greatest member.
pub proof fn lemma_has_highest(prices: Set<Price>, q: Price)
    requires
        prices.contains(q),
    ensures
        highest(prices) is Some,
        is_highest(prices, highest(prices)->0),
    decreases u64::MAX - q,
{
    if forall|r: Price| prices.contains(r) ==> r <= q {
        lemma_highest_is(prices, q);
    } else {
        let r = choose|r: Price| prices.contains(r) && r > q;
        lemma_has_highest(prices, r);
    }
}

/// A set of prices with a member has a least member.
pub proof fn lemma_has_lowest(prices: Set<Price>, q: Price)
    requires
        prices.contains(q),
    ensures
        lowest(prices) is Some,
        is_lowest(prices, lowest(prices)->0),
    decreases q,
{
    if forall|r: Price| prices.contains(r) ==> q <= r {
        lemma_lowest_is(prices, q);
    } else {
        let r = choose|r: Price| prices.contains(r) && r < q;
        lemma_has_lowest(prices, r);
    }
}

/// The extremes of a set are members that bound it; a set without an
/// extreme has no member.
pub proof fn lemma_extremes(prices: Set<Price>)
    ensures
        match highest(prices) {
            Some(p) => is_highest(prices, p),
            None => forall|q: Price| !prices.contains(q),
        },
        match lowest(prices) {
            Some(p) => is_lowest(prices, p),
            None => forall|q: Price| !prices.contains(q),
        },
{
    if highest(prices) is None {
        assert forall|q: Price| !prices.contains(q) by {
            if prices.contains(q) {
                lemma_has_highest(prices, q);
            }
        }
    }
    if lowest(prices) is None {
        assert forall|q: Price| !prices.contains(q) by {
            if prices.contains(q) {
                lemma_has_lowest(prices, q);
            }
        }
    }
}

pub proof fn lemma_no_extreme_of_empty(prices: Set<Price>)
    requires
        forall|q: Price| !prices.contains(q),
    ensures
        highest(prices) is None,
        lowest(prices) is None,
{
}

/// The members of `prices` that do not exceed `ceiling`.
pub open spec fn at_most(prices: Set<Price>, ceiling: int) -> Set<Price> {
    Set::new(|q: Price| prices.contains(q) && q <= ceiling)
}

/// The members of `prices` that are not below `floor`.
pub open spec fn at_least(prices: Set<Price>, floor: int) -> Set<Price> {
    Set::new(|q: Price| prices.contains(q) && q >= floor)
}

/// Up to `limit` members of `prices`, none above `ceiling`, taken from the
/// highest down.
pub open spec fn prices_down_from(prices: Set<Price>, ceiling: int, limit: nat) -> Seq<Price>
    decreases limit,
{
    if limit == 0 {
        Seq::empty()
    } else {
        match highest(at_most(prices, ceiling)) {
            None => Seq::empty(),
            Some(p) => seq![p] + prices_down_from(prices, p - 1, (limit - 1) as nat),
        }
    }
}

/// Up to `limit` members of `prices`, none below `floor`, taken from the
/// lowest up.
pub open spec fn prices_up_from(prices: Set<Price>, floor: int, limit: nat) -> Seq<Price>
    decreases limit,
{
    if limit == 0 {
        Seq::empty()
    } else {
        match lowest(at_least(prices, floor)) {
            None => Seq::empty(),
            Some(p) => seq![p] + prices_up_from(prices, p + 1, (limit - 1) as nat),
        }
    }
}

/// An aggregate as it is reported: quantities beyond the 64-bit range are
/// reported as the greatest 64-bit quantity.
pub open spec fn clamp_quantity(total: nat) -> Quantity {
    if total > u64::MAX {
        u64::MAX
    } else {
        total as Quantity
    }
}

/// The open quantity of the orders queued in `ids`, read from `orders`.
pub open spec fn open_quantity(ids: Seq<OrderId>, orders: Map<OrderId, OrderEntry>) -> nat
    decreases ids.len(),
{
    if ids.len() == 0 {
        0
    } else {
        open_quantity(ids.drop_last(), orders) + orders[ids.last()].remaining_quantity as nat
    }
}

pub proof fn lemma_open_quantity_push(
    ids: Seq<OrderId>,
    orders: Map<OrderId, OrderEntry>,
    id: OrderId,
)
    ensures
        open_quantity(ids.push(id), orders) == open_quantity(ids, orders)
            + orders[id].remaining_quantity,
{
    assert(ids.push(id).drop_last() =~= ids);
}

/// Queues are summed from the records of their own members only.
pub proof fn lemma_open_quantity_frame(
    ids: Seq<OrderId>,
    before: Map<OrderId, OrderEntry>,
    after: Map<OrderId, OrderEntry>,
)
    requires
        forall|i: int|
            0 <= i < ids.len() ==> before[#[trigger] ids[i]].remaining_quantity
                == after[ids[i]].remaining_quantity,
    ensures
        open_quantity(ids, before) == open_quantity(ids, after),
    decreases ids.len(),
{
    if ids.len() > 0 {
        let rest = ids.drop_last();
        assert forall|i: int| 0 <= i < rest.len() implies before[#[trigger] rest[i]].remaining_quantity
            == after[rest[i]].remaining_quantity by {
            assert(rest[i] == ids[i]);
        }
        lemma_open_quantity_frame(rest, before, after);
        assert(ids.last() == ids[ids.len() - 1]);
    }
}

pub proof fn lemma_open_quantity_remove(ids: Seq<OrderId>, orders: Map<OrderId, OrderEntry>, i: int)
    requires
        0 <= i < ids.len(),
    ensures
        open_quantity(ids.remove(i), orders) + orders[ids[i]].remaining_quantity == open_quantity(
            ids,
            orders,
        ),
    decreases ids.len(),
{
    if i == ids.len() - 1 {
        assert(ids.remove(i) =~= ids.drop_last());
    } else {
        let rest = ids.drop_last();
        lemma_open_quantity_remove(rest, orders, i);
        assert(ids.remove(i).drop_last() =~= rest.remove(i));
        assert(ids.remove(i).last() == ids.last());
        assert(rest[i] == ids[i]);
    }
}

pub proof fn lemma_open_quantity_bound(ids: Seq<OrderId>, orders: Map<OrderId, OrderEntry>)
    ensures
        open_quantity(ids, orders) <= ids.len() * u64::MAX,
    decreases ids.len(),
{
    if ids.len() > 0 {
        lemma_open_quantity_bound(ids.drop_last(), orders);
        assert((ids.len() - 1) * u64::MAX + u64::MAX == ids.len() * u64::MAX) by (nonlinear_arith);
    }
}

/// In `ladder`, every level is a non-empty queue without repetition whose
/// members are indexed in `orders` under this side and price.
pub open spec fn ladder_ok(
    ladder: Map<Price, Seq<OrderId>>,
    side: Side,
    orders: Map<OrderId, OrderEntry>,
) -> bool {
    forall|p: Price| #[trigger]
        ladder.contains_key(p) ==> {
            &&& ladder[p].len() > 0
            &&& ladder[p].no_duplicates()
            &&& forall|i: int|
                0 <= i < ladder[p].len() ==> {
                    &&& orders.contains_key(#[trigger] ladder[p][i])
                    &&& orders[ladder[p][i]].side == side
                    &&& orders[ladder[p][i]].price == p
                }
        }
}

/// The prices of the best `limit` levels of a ladder on `side`, best first:
/// the highest for bids, the lowest for asks.
pub open spec fn depth_prices(prices: Set<Price>, side: Side, limit: nat) -> Seq<Price> {
    match side {
        Side::Buy => prices_down_from(prices, u64::MAX as int, limit),
        Side::Sell => prices_up_from(prices, 0, limit),
    }
}

/// What is reported of the level at `price`: the price and the aggregate.
pub open spec fn depth_entry(
    ladder: Map<Price, Seq<OrderId>>,
    orders: Map<OrderId, OrderEntry>,
    price: Price,
) -> (Price, Quantity) {
    (price, clamp_quantity(open_quantity(ladder[price], orders)))
}

/// The best `limit` levels of a ladder on `side`, best first, each with its
/// reported aggregate.
pub open spec fn depth_of(
    ladder: Map<Price, Seq<OrderId>>,
    orders: Map<OrderId, OrderEntry>,
    side: Side,
    limit: nat,
) -> Seq<(Price, Quantity)> {
    let prices = depth_prices(ladder.dom(), side, limit);
    Seq::new(prices.len(), |i: int| depth_entry(ladder, orders, prices[i]))
}

pub proof fn lemma_prices_down_len(prices: Set<Price>, ceiling: int, limit: nat)
    ensures
        prices_down_from(prices, ceiling, limit).len() <= limit,
    decreases limit,
{
    if limit > 0 {
        match highest(at_most(prices, ceiling)) {
            None => {},
            Some(p) => {
                lemma_prices_down_len(prices, p - 1, (limit - 1) as nat);
            },
        }
    }
}

pub proof fn lemma_prices_up_len(prices: Set<Price>, floor: int, limit: nat)
    ensures
        prices_up_from(prices, floor, limit).len() <= limit,
    decreases limit,
{
    if limit > 0 {
        match lowest(at_least(prices, floor)) {
            None => {},
            Some(p) => {
                lemma_prices_up_len(prices, p + 1, (limit - 1) as nat);
            },
        }
    }
}

/// Asking for fewer levels gives the first of them.
pub proof fn lemma_prices_down_prefix(prices: Set<Price>, ceiling: int, limit: nat, fewer: nat)
    requires
        fewer <= limit,
    ensures
        prices_down_from(prices, ceiling, fewer).len() <= fewer,
        prices_down_from(prices, ceiling, limit).len() <= limit,
        prices_down_from(prices, ceiling, fewer).len() <= prices_down_from(
            prices,
            ceiling,
            limit,
        ).len(),
        prices_down_from(prices, ceiling, limit).len() < fewer ==> prices_down_from(
            prices,
            ceiling,
            fewer,
        ) == prices_down_from(prices, ceiling, limit),
        prices_down_from(prices, ceiling, limit).len() >= fewer ==> prices_down_from(
            prices,
            ceiling,
            fewer,
        ) == prices_down_from(prices, ceiling, limit).take(fewer as int),
    decreases fewer,
{
    let long = prices_down_from(prices, ceiling, limit);
    let short = prices_down_from(prices, ceiling, fewer);
    if fewer == 0 {
        assert(short =~= long.take(0));
        lemma_prices_down_len(prices, ceiling, limit);
    } else {
        match highest(at_most(prices, ceiling)) {
            None => {
                assert(short =~= long);
            },
            Some(p) => {
                lemma_prices_down_prefix(
                    prices,
                    p - 1,
                    (limit - 1) as nat,
                    (fewer - 1) as nat,
                );
                let long_tail = prices_down_from(prices, p - 1, (limit - 1) as nat);
                let short_tail = prices_down_from(prices, p - 1, (fewer - 1) as nat);
                if long.len() >= fewer {
                    assert(short =~= long.take(fewer as int));
                } else {
                    assert(short =~= long);
                }
            },
        }
    }
}

/// Asking for fewer levels gives the first of them.
pub proof fn lemma_prices_up_prefix(prices: Set<Price>, floor: int, limit: nat, fewer: nat)
    requires
        fewer <= limit,
    ensures
        prices_up_from(prices, floor, fewer).len() <= fewer,
        prices_up_from(prices, floor, limit).len() <= limit,
        prices_up_from(prices, floor, fewer).len() <= prices_up_from(prices, floor, limit).len(),
        prices_up_from(prices, floor, limit).len() < fewer ==> prices_up_from(
            prices,
            floor,
            fewer,
        ) == prices_up_from(prices, floor, limit),
        prices_up_from(prices, floor, limit).len() >= fewer ==> prices_up_from(
            prices,
            floor,
            fewer,
        ) == prices_up_from(prices, floor, limit).take(fewer as int),
    decreases fewer,
{
    let long = prices_up_from(prices, floor, limit);
    let short = prices_up_from(prices, floor, fewer);
    if fewer == 0 {
        assert(short =~= long.take(0));
        lemma_prices_up_len(prices, floor, limit);
    } else {
        match lowest(at_least(prices, floor)) {
            None => {
                assert(short =~= long);
            },
            Some(p) => {
                lemma_prices_up_prefix(prices, p + 1, (limit - 1) as nat, (fewer - 1) as nat);
                if long.len() >= fewer {
                    assert(short =~= long.take(fewer as int));
                } else {
                    assert(short =~= long);
                }
            },
        }
    }
}

/// The first `fewer` entries of a depth of `limit` levels are the depth of
/// `fewer` levels.
pub proof fn lemma_depth_prefix(
    ladder: Map<Price, Seq<OrderId>>,
    orders: Map<OrderId, OrderEntry>,
    side: Side,
    limit: nat,
    fewer: nat,
)
    requires
        fewer <= limit,
    ensures
        depth_of(ladder, orders, side, limit).len() <= limit,
        depth_of(ladder, orders, side, fewer) == if depth_of(ladder, orders, side, limit).len()
            >= fewer {
            depth_of(ladder, orders, side, limit).take(fewer as int)
        } else {
            depth_of(ladder, orders, side, limit)
        },
{
    match side {
        Side::Buy => lemma_prices_down_prefix(ladder.dom(), u64::MAX as int, limit, fewer),
        Side::Sell => lemma_prices_up_prefix(ladder.dom(), 0, limit, fewer),
    }
    let long = depth_of(ladder, orders, side, limit);
    let short = depth_of(ladder, orders, side, fewer);
    if long.len() >= fewer {
        assert(short =~= long.take(fewer as int));
    } else {
        assert(short =~= long);
    }
}

/// A depth as it is published: one level per entry, in the same order.
pub open spec fn levels_of(depth: Seq<(Price, Quantity)>) -> Seq<PriceLevel> {
    Seq::new(depth.len(), |i: int| PriceLevel { price: depth[i].0, quantity: depth[i].1 })
}

/// What a book holds: the two ladders of queues, the index of resting
/// orders, the number of the next trade and the price of the last one.
pub struct BookState {
    pub bids: Map<Price, Seq<OrderId>>,
    pub asks: Map<Price, Seq<OrderId>>,
    pub orders: Map<OrderId, OrderEntry>,
    pub next_trade_id: nat,
    pub last_price: Option<Price>,
}

impl BookState {
    pub open spec fn ladder(self, side: Side) -> Map<Price, Seq<OrderId>> {
        match side {
            Side::Buy => self.bids,
            Side::Sell => self.asks,
        }
    }

    pub open spec fn with_ladder(self, side: Side, ladder: Map<Price, Seq<OrderId>>) -> BookState {
        match side {
            Side::Buy => BookState { bids: ladder, ..self },
            Side::Sell => BookState { asks: ladder, ..self },
        }
    }

    /// The highest price at which a buy order rests.
    pub open spec fn best_bid(self) -> Option<Price> {
        highest(self.bids.dom())
    }

    /// The lowest price at which a sell order rests.
    pub open spec fn best_ask(self) -> Option<Price> {
        lowest(self.asks.dom())
    }

    /// The open quantity resting on `side` at `price`.
    pub open spec fn level_total(self, side: Side, price: Price) -> nat {
        open_quantity(self.ladder(side)[price], self.orders)
    }

    /// The best price on `side`.
    pub open spec fn best(self, side: Side) -> Option<Price> {
        match side {
            Side::Buy => self.best_bid(),
            Side::Sell => self.best_ask(),
        }
    }

    /// The best price on `side` with the open quantity resting there.
    pub open spec fn top(self, side: Side) -> Option<(Price, nat)> {
        match self.best(side) {
            Some(p) => Some((p, self.level_total(side, p))),
            None => None,
        }
    }

    /// The best `limit` levels on `side`, best first, each with its
    /// reported aggregate.
    pub open spec fn depth_side(self, side: Side, limit: nat) -> Seq<(Price, Quantity)> {
        depth_of(self.ladder(side), self.orders, side, limit)
    }

    /// `update` shows this book under `symbol`: the best `levels` levels of
    /// each side and the price of the last trade.
    pub open spec fn is_shown_by(self, update: BookUpdate, symbol: String, levels: nat) -> bool {
        &&& update.symbol == symbol
        &&& update.bids@ == levels_of(self.depth_side(Side::Buy, levels))
        &&& update.asks@ == levels_of(self.depth_side(Side::Sell, levels))
        &&& update.last_price == self.last_price
    }

    /// The record of `id` is sound and its level queues it.
    pub open spec fn entry_ok(self, id: OrderId) -> bool {
        let e = self.orders[id];
        &&& e.order_id == id
        &&& e.price > 0
        &&& 0 < e.remaining_quantity <= e.quantity
        &&& self.ladder(e.side).contains_key(e.price)
        &&& self.ladder(e.side)[e.price].contains(id)
    }

    /// The book is consistent: index and levels agree, no level is empty,
    /// and no bid meets or exceeds an ask.
    pub open spec fn wf(self) -> bool {
        &&& self.orders.dom().finite()
        &&& forall|id: OrderId| #[trigger] self.orders.contains_key(id) ==> self.entry_ok(id)
        &&& ladder_ok(self.bids, Side::Buy, self.orders)
        &&& ladder_ok(self.asks, Side::Sell, self.orders)
        &&& forall|b: Price, a: Price|
            #[trigger] self.bids.contains_key(b) && #[trigger] self.asks.contains_key(a) ==> b < a
    }

    /// An order on `side` at `price` would trade at once instead of resting.
    pub open spec fn crosses(self, side: Side, price: Price) -> bool {
        match side {
            Side::Buy => exists|a: Price| #[trigger] self.asks.contains_key(a) && a <= price,
            Side::Sell => exists|b: Price| #[trigger] self.bids.contains_key(b) && b >= price,
        }
    }

    /// The book after `e` has been queued at the tail of its level.
    pub open spec fn rest(self, e: OrderEntry) -> BookState {
        let ladder = self.ladder(e.side);
        let queue = if ladder.contains_key(e.price) {
            ladder[e.price].push(e.order_id)
        } else {
            seq![e.order_id]
        };
        BookState {
            orders: self.orders.insert(e.order_id, e),
            ..self.with_ladder(e.side, ladder.insert(e.price, queue))
        }
    }

    /// The book after `id` has left it; a level left empty goes with it.
    pub open spec fn remove(self, id: OrderId) -> BookState {
        if !self.orders.contains_key(id) {
            self
        } else {
            let e = self.orders[id];
            let ladder = self.ladder(e.side);
            let queue = ladder[e.price].remove(first_index_of(ladder[e.price], id));
            let ladder = if queue.len() == 0 {
                ladder.remove(e.price)
            } else {
                ladder.insert(e.price, queue)
            };
            BookState { orders: self.orders.remove(id), ..self.with_ladder(e.side, ladder) }
        }
    }

    /// The book after `quantity` of the resting order `id` has traded: the
    /// order leaves when nothing of it is left, and stays in place otherwise.
    pub open spec fn fill(self, id: OrderId, quantity: Quantity) -> BookState {
        if !self.orders.contains_key(id) || quantity > self.orders[id].remaining_quantity {
            self
        } else if quantity == self.orders[id].remaining_quantity {
            self.remove(id)
        } else {
            let e = self.orders[id];
            BookState {
                orders: self.orders.insert(
                    id,
                    OrderEntry {
                        remaining_quantity: (e.remaining_quantity - quantity) as Quantity,
                        ..e
                    },
                ),
                ..self
            }
        }
    }

    /// The resting order an incoming order on `incoming` would trade with
    /// first: the head of the best level on the other side.
    pub open spec fn next_match_candidate(self, incoming: Side) -> Option<OrderId> {
        match incoming {
            Side::Buy => match self.best_ask() {
                Some(p) => Some(self.asks[p][0]),
                None => None,
            },
            Side::Sell => match self.best_bid() {
                Some(p) => Some(self.bids[p][0]),
                None => None,
            },
        }
    }

    /// An order that is sound, new to the book and does not cross it can
    /// rest without breaking the book.
    pub proof fn lemma_rest_wf(self, e: OrderEntry)
        requires
            self.wf(),
            !self.orders.contains_key(e.order_id),
            e.price > 0,
            0 < e.remaining_quantity <= e.quantity,
            !self.crosses(e.side, e.price),
        ensures
            self.rest(e).wf(),
    {
        let after = self.rest(e);
        let id = e.order_id;
        let old_ladder = self.ladder(e.side);
        let new_ladder = after.ladder(e.side);
        assert(ladder_ok(old_ladder, e.side, self.orders));
        assert(new_ladder.contains_key(e.price));
        let queue = new_ladder[e.price];
        assert(queue[queue.len() - 1] == id);
        if old_ladder.contains_key(e.price) {
            let before = old_ladder[e.price];
            assert forall|i: int| 0 <= i < before.len() implies before[i] != id by {
                assert(self.orders.contains_key(before[i]));
            }
            assert forall|i: int| 0 <= i < before.len() implies queue[i] == before[i] by {}
        }
        assert(queue.no_duplicates());
        assert forall|k: OrderId| #[trigger] after.orders.contains_key(k) implies after.entry_ok(
            k,
        ) by {
            if k != id {
                assert(self.orders.contains_key(k));
                assert(self.entry_ok(k));
                let ek = self.orders[k];
                if ek.side == e.side && ek.price == e.price {
                    let before = old_ladder[e.price];
                    let i = choose|i: int| 0 <= i < before.len() && before[i] == k;
                    assert(queue[i] == k);
                }
            }
        }
        assert forall|p: Price| #[trigger] new_ladder.contains_key(p) implies {
            &&& new_ladder[p].len() > 0
            &&& new_ladder[p].no_duplicates()
            &&& forall|i: int|
                0 <= i < new_ladder[p].len() ==> {
                    &&& after.orders.contains_key(#[trigger] new_ladder[p][i])
                    &&& after.orders[new_ladder[p][i]].side == e.side
                    &&& after.orders[new_ladder[p][i]].price == p
                }
        } by {
            if p != e.price {
                assert(old_ladder.contains_key(p));
                assert forall|i: int| 0 <= i < new_ladder[p].len() implies {
                    &&& after.orders.contains_key(#[trigger] new_ladder[p][i])
                    &&& after.orders[new_ladder[p][i]].side == e.side
                    &&& after.orders[new_ladder[p][i]].price == p
                } by {
                    assert(self.orders.contains_key(old_ladder[p][i]));
                }
            } else {
                assert forall|i: int| 0 <= i < queue.len() implies {
                    &&& after.orders.contains_key(#[trigger] queue[i])
                    &&& after.orders[queue[i]].side == e.side
                    &&& after.orders[queue[i]].price == p
                } by {
                    if i < queue.len() - 1 {
                        assert(self.orders.contains_key(old_ladder[p][i]));
                    }
                }
            }
        }
        let other = e.side.opposite();
        let other_ladder = self.ladder(other);
        assert(after.ladder(other) == other_ladder);
        assert(ladder_ok(other_ladder, other, self.orders));
        assert forall|p: Price| #[trigger] other_ladder.contains_key(p) implies {
            &&& other_ladder[p].len() > 0
            &&& other_ladder[p].no_duplicates()
            &&& forall|i: int|
                0 <= i < other_ladder[p].len() ==> {
                    &&& after.orders.contains_key(#[trigger] other_ladder[p][i])
                    &&& after.orders[other_ladder[p][i]].side == other
                    &&& after.orders[other_ladder[p][i]].price == p
                }
        } by {
            assert forall|i: int| 0 <= i < other_ladder[p].len() implies {
                &&& after.orders.contains_key(#[trigger] other_ladder[p][i])
                &&& after.orders[other_ladder[p][i]].side == other
                &&& after.orders[other_ladder[p][i]].price == p
            } by {
                assert(self.orders.contains_key(other_ladder[p][i]));
            }
        }
        assert(ladder_ok(new_ladder, e.side, after.orders));
        assert(ladder_ok(other_ladder, other, after.orders));
    }

    /// Taking a resting order out leaves a consistent book.
    pub proof fn lemma_remove_wf(self, id: OrderId)
        requires
            self.wf(),
        ensures
            self.remove(id).wf(),
    {
        if self.orders.contains_key(id) {
            let after = self.remove(id);
            let e = self.orders[id];
            assert(self.entry_ok(id));
            let old_ladder = self.ladder(e.side);
            let new_ladder = after.ladder(e.side);
            assert(ladder_ok(old_ladder, e.side, self.orders));
            let before = old_ladder[e.price];
            lemma_first_index_of_member(before, id);
            let at = first_index_of(before, id);
            let queue = before.remove(at);
            assert forall|i: int| 0 <= i < queue.len() implies #[trigger] queue[i] != id
                && before.contains(queue[i]) by {
                if i < at {
                    assert(queue[i] == before[i]);
                } else {
                    assert(queue[i] == before[i + 1]);
                }
            }
            assert(queue.no_duplicates()) by {
                assert forall|i: int, j: int|
                    0 <= i < queue.len() && 0 <= j < queue.len() && i != j implies queue[i]
                    != queue[j] by {
                    let ii = if i < at {
                        i
                    } else {
                        i + 1
                    };
                    let jj = if j < at {
                        j
                    } else {
                        j + 1
                    };
                    assert(queue[i] == before[ii]);
                    assert(queue[j] == before[jj]);
                }
            }
            assert forall|k: OrderId| #[trigger] after.orders.contains_key(k) implies after.entry_ok(
                k,
            ) by {
                assert(self.orders.contains_key(k));
                assert(self.entry_ok(k));
                let ek = self.orders[k];
                if ek.side == e.side && ek.price == e.price {
                    let i = choose|i: int| 0 <= i < before.len() && before[i] == k;
                    if i < at {
                        assert(queue[i] == k);
                    } else {
                        assert(queue[i - 1] == k);
                    }
                }
            }
            assert forall|p: Price| #[trigger] new_ladder.contains_key(p) implies {
                &&& new_ladder[p].len() > 0
                &&& new_ladder[p].no_duplicates()
                &&& forall|i: int|
                    0 <= i < new_ladder[p].len() ==> {
                        &&& after.orders.contains_key(#[trigger] new_ladder[p][i])
                        &&& after.orders[new_ladder[p][i]].side == e.side
                        &&& after.orders[new_ladder[p][i]].price == p
                    }
            } by {
                assert(old_ladder.contains_key(p));
                assert forall|i: int| 0 <= i < new_ladder[p].len() implies {
                    &&& after.orders.contains_key(#[trigger] new_ladder[p][i])
                    &&& after.orders[new_ladder[p][i]].side == e.side
                    &&& after.orders[new_ladder[p][i]].price == p
                } by {
                    let k = new_ladder[p][i];
                    if p == e.price {
                        assert(before.contains(k));
                        let j = choose|j: int| 0 <= j < before.len() && before[j] == k;
                        assert(self.orders.contains_key(before[j]));
                    } else {
                        assert(self.orders.contains_key(old_ladder[p][i]));
                        assert(self.orders[k].price == p);
                    }
                }
            }
            let other = e.side.opposite();
            let other_ladder = self.ladder(other);
            assert(after.ladder(other) == other_ladder);
            assert(ladder_ok(other_ladder, other, self.orders));
            assert forall|p: Price| #[trigger] other_ladder.contains_key(p) implies {
                &&& other_ladder[p].len() > 0
                &&& other_ladder[p].no_duplicates()
                &&& forall|i: int|
                    0 <= i < other_ladder[p].len() ==> {
                        &&& after.orders.contains_key(#[trigger] other_ladder[p][i])
                        &&& after.orders[other_ladder[p][i]].side == other
                        &&& after.orders[other_ladder[p][i]].price == p
                    }
            } by {
                assert forall|i: int| 0 <= i < other_ladder[p].len() implies {
                    &&& after.orders.contains_key(#[trigger] other_ladder[p][i])
                    &&& after.orders[other_ladder[p][i]].side == other
                    &&& after.orders[other_ladder[p][i]].price == p
                } by {
                    assert(self.orders.contains_key(other_ladder[p][i]));
                }
            }
            assert(ladder_ok(new_ladder, e.side, after.orders));
            assert(ladder_ok(other_ladder, other, after.orders));
        }
    }

    /// Trading part or all of a resting order leaves a consistent book.
    pub proof fn lemma_fill_wf(self, id: OrderId, quantity: Quantity)
        requires
            self.wf(),
        ensures
            self.fill(id, quantity).wf(),
    {
        if self.orders.contains_key(id) && quantity <= self.orders[id].remaining_quantity {
            if quantity == self.orders[id].remaining_quantity {
                self.lemma_remove_wf(id);
            } else {
                let after = self.fill(id, quantity);
                assert(self.entry_ok(id));
                assert forall|k: OrderId| #[trigger] after.orders.contains_key(k) implies after.entry_ok(
                    k,
                ) by {
                    assert(self.orders.contains_key(k));
                    assert(self.entry_ok(k));
                }
                assert forall|p: Price| #[trigger] self.bids.contains_key(p) implies forall|i: int|
                    0 <= i < self.bids[p].len() ==> {
                        &&& after.orders.contains_key(#[trigger] self.bids[p][i])
                        &&& after.orders[self.bids[p][i]].side == Side::Buy
                        &&& after.orders[self.bids[p][i]].price == p
                    } by {
                    assert forall|i: int| 0 <= i < self.bids[p].len() implies {
                        &&& after.orders.contains_key(#[trigger] self.bids[p][i])
                        &&& after.orders[self.bids[p][i]].side == Side::Buy
                        &&& after.orders[self.bids[p][i]].price == p
                    } by {
                        assert(self.orders.contains_key(self.bids[p][i]));
                    }
                }
                assert forall|p: Price| #[trigger] self.asks.contains_key(p) implies forall|i: int|
                    0 <= i < self.asks[p].len() ==> {
                        &&& after.orders.contains_key(#[trigger] self.asks[p][i])
                        &&& after.orders[self.asks[p][i]].side == Side::Sell
                        &&& after.orders[self.asks[p][i]].price == p
                    } by {
                    assert forall|i: int| 0 <= i < self.asks[p].len() implies {
                        &&& after.orders.contains_key(#[trigger] self.asks[p][i])
                        &&& after.orders[self.asks[p][i]].side == Side::Sell
                        &&& after.orders[self.asks[p][i]].price == p
                    } by {
                        assert(self.orders.contains_key(self.asks[p][i]));
                    }
                }
            }
        }
    }
}

} // verus!
