//! The executable book.

use vstd::prelude::*;
use std::collections::BTreeMap;
use std::collections::HashMap;
use crate::clock::now_millis;
use crate::orderbook::error::OrderBookError;
use crate::orderbook::ladder::{highest_price_at_most, lowest_price_at_least};
use crate::orderbook::price_levels::{first_index_of, lemma_first_index_of_member, PriceLevel};
use crate::orderbook::state::{
    at_least, at_most, clamp_quantity, depth_entry, depth_of, highest, is_highest, is_lowest,
    ladder_ok, lemma_depth_prefix, lemma_extremes, lemma_highest_is, lemma_lowest_is,
    lemma_no_extreme_of_empty, lemma_open_quantity_bound, lemma_open_quantity_frame, levels_of,
    lemma_open_quantity_push, lemma_open_quantity_remove, lowest, open_quantity,
    prices_down_from, prices_up_from, BookState,
};
use crate::orderbook::types::{CachedDepth, Depth, CACHE_LIMIT};
use crate::protocol::{BookUpdate, OrderId, Price, Quantity, Side, UserId};

verus! {

/// An order as it rests in the book.
#[derive(Clone, Copy, Debug, PartialEq, Eq, Structural)]
pub struct OrderEntry {
    pub order_id: OrderId,
    pub user_id: UserId,
    pub side: Side,
    pub price: Price,
    pub quantity: Quantity,
    pub remaining_quantity: Quantity,
    pub timestamp: i64,
}

impl OrderEntry {
    /// An unfilled order that entered at `timestamp`.
    pub fn with_timestamp(
        order_id: OrderId,
        user_id: UserId,
        side: Side,
        price: Price,
        quantity: Quantity,
        timestamp: i64,
    ) -> (entry: OrderEntry)
        ensures
            entry == (OrderEntry {
                order_id,
                user_id,
                side,
                price,
                quantity,
                remaining_quantity: quantity,
                timestamp,
            }),
    {
        OrderEntry {
            order_id,
            user_id,
            side,
            price,
            quantity,
            remaining_quantity: quantity,
            timestamp,
        }
    }

    /// An unfilled order stamped with the current time.
    pub fn new(
        order_id: OrderId,
        user_id: UserId,
        side: Side,
        price: Price,
        quantity: Quantity,
    ) -> (entry: OrderEntry)
        ensures
            entry == (OrderEntry {
                order_id,
                user_id,
                side,
                price,
                quantity,
                remaining_quantity: quantity,
                timestamp: entry.timestamp,
            }),
    {
        let timestamp: i64 = now_millis();
        OrderEntry::with_timestamp(order_id, user_id, side, price, quantity, timestamp)
    }

    pub open spec fn quantity_message() -> Seq<char> {
        "Quantity must be greater than 0"@
    }

    pub open spec fn price_message() -> Seq<char> {
        "Price must be greater than 0"@
    }

    pub open spec fn fill_message() -> Seq<char> {
        "Quantity must be less than or equal to the remaining quantity"@
    }

    /// An order must have a positive quantity and a positive price; the
    /// quantity is checked first.
    pub fn validate_order(&self) -> (result: Result<(), OrderBookError>)
        ensures
            result is Ok <==> self.quantity > 0 && self.price > 0,
            self.quantity == 0 ==> (result matches Err(e) && e.is_invalid_order(
                Self::quantity_message(),
            )),
            self.quantity > 0 && self.price == 0 ==> (result matches Err(e) && e.is_invalid_order(
                Self::price_message(),
            )),
    {
        if self.quantity == 0 {
            return Err(OrderBookError::InvalidOrder("Quantity must be greater than 0".to_owned()));
        }
        if self.price == 0 {
            return Err(OrderBookError::InvalidOrder("Price must be greater than 0".to_owned()));
        }
        Ok(())
    }

    /// Takes `quantity` off what remains open, or refuses when more is asked
    /// than remains.
    pub fn fill(&mut self, quantity: Quantity) -> (result: Result<(), OrderBookError>)
        ensures
            result is Ok <==> quantity <= old(self).remaining_quantity,
            result is Ok ==> *final(self) == (OrderEntry {
                remaining_quantity: (old(self).remaining_quantity - quantity) as Quantity,
                ..*old(self)
            }),
            result is Err ==> *final(self) == *old(self) && (result matches Err(e)
                && e.is_invalid_order(Self::fill_message())),
    {
        if quantity > self.remaining_quantity {
            return Err(
                OrderBookError::InvalidOrder(
                    "Quantity must be less than or equal to the remaining quantity".to_owned(),
                ),
            );
        }
        self.remaining_quantity = self.remaining_quantity - quantity;
        Ok(())
    }
}

/// The queues of a ladder of levels, by price.
pub open spec fn queues(levels: Map<Price, PriceLevel>) -> Map<Price, Seq<OrderId>> {
    Map::new(|p: Price| levels.contains_key(p), |p: Price| levels[p].ids())
}

/// Every level sits under its own price and accounts for exactly the open
/// quantity of the orders it queues.
pub open spec fn levels_ok(levels: Map<Price, PriceLevel>, orders: Map<OrderId, OrderEntry>) -> bool {
    forall|p: Price| #[trigger]
        levels.contains_key(p) ==> {
            &&& levels[p].spec_price() == p
            &&& levels[p].total() == open_quantity(levels[p].ids(), orders)
        }
}

/// Levels that queue nothing of what changed between two indexes account
/// for the same open quantity under both.
proof fn lemma_levels_frame(
    levels: Map<Price, PriceLevel>,
    before: Map<OrderId, OrderEntry>,
    after: Map<OrderId, OrderEntry>,
    changed: OrderId,
    skip: Option<Price>,
)
    requires
        levels_ok(levels, before),
        forall|k: OrderId| k != changed ==> before[k] == after[k],
        forall|p: Price|
            #[trigger] levels.contains_key(p) && Some(p) != skip ==> !levels[p].ids().contains(
                changed,
            ),
    ensures
        forall|p: Price|
            #[trigger] levels.contains_key(p) && Some(p) != skip ==> levels[p].total()
                == open_quantity(levels[p].ids(), after),
{
    assert forall|p: Price| #[trigger] levels.contains_key(p) && Some(p) != skip implies levels[p].total()
        == open_quantity(levels[p].ids(), after) by {
        let ids = levels[p].ids();
        assert forall|i: int| 0 <= i < ids.len() implies before[#[trigger] ids[i]].remaining_quantity
            == after[ids[i]].remaining_quantity by {
            assert(ids.contains(ids[i]));
        }
        lemma_open_quantity_frame(ids, before, after);
    }
}

/// Queues `id` with `quantity` at the tail of the level at `price`, which
/// is created when the ladder has none.
fn push_to_ladder(
    levels: &mut BTreeMap<Price, PriceLevel>,
    price: Price,
    id: OrderId,
    quantity: Quantity,
    Ghost(orders): Ghost<Map<OrderId, OrderEntry>>,
)
    requires
        levels_ok(old(levels)@, orders),
    ensures
        final(levels)@.dom() == old(levels)@.dom().insert(price),
        forall|p: Price| p != price && old(levels)@.contains_key(p) ==> final(levels)@[p] == old(
            levels,
        )@[p],
        final(levels)@[price].spec_price() == price,
        final(levels)@[price].ids() == if old(levels)@.contains_key(price) {
            old(levels)@[price].ids().push(id)
        } else {
            seq![id]
        },
        final(levels)@[price].total() == quantity + if old(levels)@.contains_key(price) {
            old(levels)@[price].total()
        } else {
            0
        },
{
    let existing = levels.remove(&price);
    let mut level = match existing {
        Some(level) => level,
        None => PriceLevel::new(price),
    };
    let queued: usize = level.len();
    proof {
        lemma_open_quantity_bound(level.ids(), orders);
        assert(level.total() <= queued * u64::MAX);
        assert(queued * u64::MAX + quantity <= u128::MAX) by (nonlinear_arith)
            requires
                queued <= u64::MAX,
                quantity <= u64::MAX,
        ;
        if existing is None {
            assert(level.ids().push(id) =~= seq![id]);
        }
    }
    level.add_order(id, quantity);
    levels.insert(price, level);
    proof {
        assert(final(levels)@.dom() =~= old(levels)@.dom().insert(price));
    }
}

/// Takes `id`, which holds `quantity`, out of the level at `price`, and
/// takes the level out of the ladder when that leaves it empty. Says whether
/// it did so.
fn remove_from_ladder(
    levels: &mut BTreeMap<Price, PriceLevel>,
    price: Price,
    id: OrderId,
    quantity: Quantity,
    Ghost(orders): Ghost<Map<OrderId, OrderEntry>>,
) -> (emptied: bool)
    requires
        levels_ok(old(levels)@, orders),
        old(levels)@.contains_key(price),
        old(levels)@[price].ids().contains(id),
        orders[id].remaining_quantity == quantity,
    ensures
        emptied == (old(levels)@[price].ids().len() == 1),
        emptied ==> final(levels)@ == old(levels)@.remove(price),
        !emptied ==> {
            &&& final(levels)@.dom() == old(levels)@.dom()
            &&& final(levels)@[price].spec_price() == price
            &&& final(levels)@[price].ids() == old(levels)@[price].ids().remove(
                first_index_of(old(levels)@[price].ids(), id),
            )
            &&& final(levels)@[price].total() == old(levels)@[price].total() - quantity
        },
        forall|p: Price| p != price && old(levels)@.contains_key(p) ==> final(levels)@[p] == old(
            levels,
        )@[p],
{
    let existing = levels.remove(&price);
    let mut level = existing.unwrap();
    proof {
        lemma_first_index_of_member(level.ids(), id);
        lemma_open_quantity_remove(level.ids(), orders, first_index_of(level.ids(), id));
    }
    level.remove_order(id, quantity);
    if level.is_empty() {
        true
    } else {
        levels.insert(price, level);
        proof {
            assert(final(levels)@.dom() =~= old(levels)@.dom());
        }
        false
    }
}

/// Takes `quantity` off the account of the level at `price`.
fn reduce_in_ladder(levels: &mut BTreeMap<Price, PriceLevel>, price: Price, quantity: Quantity)
    requires
        old(levels)@.contains_key(price),
        quantity <= old(levels)@[price].total(),
    ensures
        final(levels)@.dom() == old(levels)@.dom(),
        final(levels)@[price].spec_price() == old(levels)@[price].spec_price(),
        final(levels)@[price].ids() == old(levels)@[price].ids(),
        final(levels)@[price].total() == old(levels)@[price].total() - quantity,
        forall|p: Price| p != price && old(levels)@.contains_key(p) ==> final(levels)@[p] == old(
            levels,
        )@[p],
{
    let existing = levels.remove(&price);
    let mut level = existing.unwrap();
    level.reduce(quantity);
    levels.insert(price, level);
    proof {
        assert(final(levels)@.dom() =~= old(levels)@.dom());
    }
}

/// An aggregate as it is reported.
fn clamp(total: u128) -> (reported: Quantity)
    ensures
        reported == clamp_quantity(total as nat),
{
    if total > 0xffff_ffff_ffff_ffff {
        u64::MAX
    } else {
        total as u64
    }
}

/// The best `limit` bid levels, from the highest price down.
fn collect_bids(
    levels: &BTreeMap<Price, PriceLevel>,
    limit: usize,
    Ghost(orders): Ghost<Map<OrderId, OrderEntry>>,
) -> (out: Vec<(Price, Quantity)>)
    requires
        levels_ok(levels@, orders),
    ensures
        out@ == depth_of(queues(levels@), orders, Side::Buy, limit as nat),
{
    let ghost ladder = queues(levels@);
    let ghost prices = ladder.dom();
    let ghost full = prices_down_from(prices, u64::MAX as int, limit as nat);
    let ghost done: Seq<Price> = Seq::empty();
    let ghost ceiling: int = u64::MAX as int;
    proof {
        assert(prices =~= levels@.dom());
    }
    let mut out: Vec<(Price, Quantity)> = Vec::new();
    let mut next = highest_price_at_most(levels, u64::MAX);
    proof {
        match next {
            Some(p) => lemma_highest_is(at_most(prices, ceiling), p),
            None => lemma_no_extreme_of_empty(at_most(prices, ceiling)),
        }
        assert(done + full =~= full);
    }
    while out.len() < limit && next.is_some()
        invariant
            levels_ok(levels@, orders),
            ladder == queues(levels@),
            prices == levels@.dom(),
            prices == ladder.dom(),
            full == prices_down_from(prices, u64::MAX as int, limit as nat),
            out@.len() == done.len(),
            out@.len() <= limit,
            full == done + prices_down_from(prices, ceiling, (limit - done.len()) as nat),
            next == highest(at_most(prices, ceiling)),
            forall|i: int| 0 <= i < done.len() ==> out@[i] == depth_entry(ladder, orders, done[i]),
        decreases limit - out.len(),
    {
        let price = next.unwrap();
        proof {
            lemma_extremes(at_most(prices, ceiling));
            assert(levels@.contains_key(price));
        }
        let level = levels.get(&price).unwrap();
        let entry = (price, clamp(level.get_total_quantity()));
        proof {
            let tail = prices_down_from(prices, price - 1, (limit - done.len() - 1) as nat);
            assert(done + (seq![price] + tail) =~= done.push(price) + tail);
            done = done.push(price);
            ceiling = price - 1;
        }
        out.push(entry);
        if price == 0 {
            next = None;
            proof {
                lemma_no_extreme_of_empty(at_most(prices, ceiling));
            }
        } else {
            next = highest_price_at_most(levels, price - 1);
            proof {
                match next {
                    Some(p) => lemma_highest_is(at_most(prices, ceiling), p),
                    None => lemma_no_extreme_of_empty(at_most(prices, ceiling)),
                }
            }
        }
    }
    proof {
        assert(prices_down_from(prices, ceiling, (limit - done.len()) as nat) =~= Seq::<
            Price,
        >::empty());
        assert(full =~= done);
        assert(out@ =~= depth_of(ladder, orders, Side::Buy, limit as nat));
    }
    out
}

/// The best `limit` ask levels, from the lowest price up.
fn collect_asks(
    levels: &BTreeMap<Price, PriceLevel>,
    limit: usize,
    Ghost(orders): Ghost<Map<OrderId, OrderEntry>>,
) -> (out: Vec<(Price, Quantity)>)
    requires
        levels_ok(levels@, orders),
    ensures
        out@ == depth_of(queues(levels@), orders, Side::Sell, limit as nat),
{
    let ghost ladder = queues(levels@);
    let ghost prices = ladder.dom();
    let ghost full = prices_up_from(prices, 0, limit as nat);
    let ghost done: Seq<Price> = Seq::empty();
    let ghost floor: int = 0;
    proof {
        assert(prices =~= levels@.dom());
    }
    let mut out: Vec<(Price, Quantity)> = Vec::new();
    let mut next = lowest_price_at_least(levels, 0);
    proof {
        match next {
            Some(p) => lemma_lowest_is(at_least(prices, floor), p),
            None => lemma_no_extreme_of_empty(at_least(prices, floor)),
        }
        assert(done + full =~= full);
    }
    while out.len() < limit && next.is_some()
        invariant
            levels_ok(levels@, orders),
            ladder == queues(levels@),
            prices == levels@.dom(),
            prices == ladder.dom(),
            full == prices_up_from(prices, 0, limit as nat),
            out@.len() == done.len(),
            out@.len() <= limit,
            full == done + prices_up_from(prices, floor, (limit - done.len()) as nat),
            next == lowest(at_least(prices, floor)),
            forall|i: int| 0 <= i < done.len() ==> out@[i] == depth_entry(ladder, orders, done[i]),
        decreases limit - out.len(),
    {
        let price = next.unwrap();
        proof {
            lemma_extremes(at_least(prices, floor));
            assert(levels@.contains_key(price));
        }
        let level = levels.get(&price).unwrap();
        let entry = (price, clamp(level.get_total_quantity()));
        proof {
            let tail = prices_up_from(prices, price + 1, (limit - done.len() - 1) as nat);
            assert(done + (seq![price] + tail) =~= done.push(price) + tail);
            done = done.push(price);
            floor = price + 1;
        }
        out.push(entry);
        if price == u64::MAX {
            next = None;
            proof {
                lemma_no_extreme_of_empty(at_least(prices, floor));
            }
        } else {
            next = lowest_price_at_least(levels, price + 1);
            proof {
                match next {
                    Some(p) => lemma_lowest_is(at_least(prices, floor), p),
                    None => lemma_no_extreme_of_empty(at_least(prices, floor)),
                }
            }
        }
    }
    proof {
        assert(prices_up_from(prices, floor, (limit - done.len()) as nat) =~= Seq::<
            Price,
        >::empty());
        assert(full =~= done);
        assert(out@ =~= depth_of(ladder, orders, Side::Sell, limit as nat));
    }
    out
}

/// The first `limit` entries of `entries`, or all of them when there are
/// fewer.
fn leading(entries: &Vec<(Price, Quantity)>, limit: usize) -> (out: Vec<(Price, Quantity)>)
    ensures
        out@ == if entries@.len() >= limit {
            entries@.take(limit as int)
        } else {
            entries@
        },
{
    let mut out: Vec<(Price, Quantity)> = Vec::new();
    let mut i: usize = 0;
    while i < entries.len() && i < limit
        invariant
            i <= entries@.len(),
            i <= limit,
            out@ == entries@.take(i as int),
        decreases entries@.len() - i,
    {
        out.push(entries[i]);
        proof {
            assert(entries@.take(i + 1) =~= entries@.take(i as int).push(entries@[i as int]));
        }
        i = i + 1;
    }
    proof {
        if entries@.len() < limit {
            assert(entries@.take(i as int) =~= entries@);
        }
    }
    out
}

/// A depth as it is published.
fn published(depth: &Vec<(Price, Quantity)>) -> (levels: Vec<crate::protocol::PriceLevel>)
    ensures
        levels@ == levels_of(depth@),
{
    let mut levels: Vec<crate::protocol::PriceLevel> = Vec::new();
    let mut i: usize = 0;
    while i < depth.len()
        invariant
            i <= depth@.len(),
            levels@ == levels_of(depth@.take(i as int)),
        decreases depth@.len() - i,
    {
        let entry = depth[i];
        levels.push(crate::protocol::PriceLevel { price: entry.0, quantity: entry.1 });
        proof {
            assert(levels_of(depth@.take(i + 1)) =~= levels_of(depth@.take(i as int)).push(
                crate::protocol::PriceLevel { price: entry.0, quantity: entry.1 },
            ));
        }
        i = i + 1;
    }
    proof {
        assert(depth@.take(i as int) =~= depth@);
    }
    levels
}

/// The book of one symbol.
#[derive(Clone, Debug)]
pub struct OrderBook {
    symbol: String,
    asks: BTreeMap<Price, PriceLevel>,
    bids: BTreeMap<Price, PriceLevel>,
    orders: HashMap<OrderId, OrderEntry>,
    depth_cache: CachedDepth,
    best_bid: Option<Price>,
    best_ask: Option<Price>,
    next_trade_id: u64,
    last_price: Option<Price>,
}

impl View for OrderBook {
    type V = BookState;

    closed spec fn view(&self) -> BookState {
        BookState {
            bids: queues(self.bids@),
            asks: queues(self.asks@),
            orders: self.orders@,
            next_trade_id: self.next_trade_id as nat,
            last_price: self.last_price,
        }
    }
}

impl OrderBook {
    pub closed spec fn spec_symbol(&self) -> String {
        self.symbol
    }

    /// The aggregate that the level on `side` at `price` accounts for.
    pub closed spec fn level_account(&self, side: Side, price: Price) -> nat {
        match side {
            Side::Buy => self.bids@[price].total(),
            Side::Sell => self.asks@[price].total(),
        }
    }

    /// The snapshot in the depth cache is current.
    pub closed spec fn cache_is_latest(&self) -> bool {
        self.depth_cache.is_latest
    }

    /// What the book keeps beside its contents agrees with them: each level
    /// accounts for the open quantity it queues, the cached best prices are
    /// the extremes of the ladders, and a snapshot marked current shows the
    /// ladders as they are.
    pub closed spec fn inv(&self) -> bool {
        &&& levels_ok(self.bids@, self.orders@)
        &&& levels_ok(self.asks@, self.orders@)
        &&& self.best_bid == self@.best_bid()
        &&& self.best_ask == self@.best_ask()
        &&& self.depth_cache.is_latest ==> {
            &&& self.depth_cache.bids@ == self@.depth_side(Side::Buy, CACHE_LIMIT as nat)
            &&& self.depth_cache.asks@ == self@.depth_side(Side::Sell, CACHE_LIMIT as nat)
        }
    }

    /// The book is consistent, in what it holds and in what it keeps beside.
    pub open spec fn wf(&self) -> bool {
        self@.wf() && self.inv()
    }

    /// In a consistent book every level accounts for exactly the open
    /// quantity of the orders it queues.
    pub proof fn lemma_level_account(&self, side: Side, price: Price)
        requires
            self.wf(),
            self@.ladder(side).contains_key(price),
        ensures
            self.level_account(side, price) == self@.level_total(side, price),
    {
        match side {
            Side::Buy => {
                assert(self.bids@.contains_key(price));
            },
            Side::Sell => {
                assert(self.asks@.contains_key(price));
            },
        }
    }

    /// An empty book for `symbol`; its first trade will be number 0.
    pub fn new(symbol: &str) -> (book: OrderBook)
        ensures
            book.wf(),
            book.spec_symbol()@ == symbol@,
            book@.bids == Map::<Price, Seq<OrderId>>::empty(),
            book@.asks == Map::<Price, Seq<OrderId>>::empty(),
            book@.orders == Map::<OrderId, OrderEntry>::empty(),
            book@.next_trade_id == 0,
            book@.last_price is None,
            !book.cache_is_latest(),
    {
        Self::starting_at(symbol, 0)
    }

    /// An empty book for `symbol` that takes up the numbering of trades at
    /// `next_trade_id`.
    pub fn starting_at(symbol: &str, next_trade_id: u64) -> (book: OrderBook)
        ensures
            book.wf(),
            book.spec_symbol()@ == symbol@,
            book@.bids == Map::<Price, Seq<OrderId>>::empty(),
            book@.asks == Map::<Price, Seq<OrderId>>::empty(),
            book@.orders == Map::<OrderId, OrderEntry>::empty(),
            book@.next_trade_id == next_trade_id,
            book@.last_price is None,
            !book.cache_is_latest(),
    {
        let book = OrderBook {
            symbol: symbol.to_owned(),
            asks: BTreeMap::new(),
            bids: BTreeMap::new(),
            orders: HashMap::new(),
            depth_cache: CachedDepth::new(),
            best_bid: None,
            best_ask: None,
            next_trade_id,
            last_price: None,
        };
        proof {
            assert(book@.bids =~= Map::<Price, Seq<OrderId>>::empty());
            assert(book@.asks =~= Map::<Price, Seq<OrderId>>::empty());
            lemma_no_extreme_of_empty(book@.bids.dom());
            lemma_no_extreme_of_empty(book@.asks.dom());
        }
        book
    }

    /// Hands out the number of the next trade and moves on to the one after.
    pub fn generate_trade_id(&mut self) -> (id: u64)
        requires
            old(self).wf(),
            old(self)@.next_trade_id < u64::MAX,
        ensures
            final(self).wf(),
            id == old(self)@.next_trade_id,
            final(self)@ == (BookState { next_trade_id: old(self)@.next_trade_id + 1, ..old(self)@ }),
            final(self).spec_symbol() == old(self).spec_symbol(),
            final(self).cache_is_latest() == old(self).cache_is_latest(),
    {
        let id = self.next_trade_id;
        self.next_trade_id = self.next_trade_id + 1;
        id
    }

    /// Records the price of the trade that has just happened.
    pub fn record_last_price(&mut self, price: Price)
        requires
            old(self).wf(),
        ensures
            final(self).wf(),
            final(self)@ == (BookState { last_price: Some(price), ..old(self)@ }),
            final(self).spec_symbol() == old(self).spec_symbol(),
            final(self).cache_is_latest() == old(self).cache_is_latest(),
    {
        self.last_price = Some(price);
    }

    pub open spec fn remaining_message() -> Seq<char> {
        "Remaining quantity must be between 1 and the quantity"@
    }

    pub open spec fn duplicate_message() -> Seq<char> {
        "Order id is already in the book"@
    }

    /// An order can rest when it is sound and its id is not in the book.
    pub open spec fn can_rest(&self, order: OrderEntry) -> bool {
        &&& order.quantity > 0
        &&& order.price > 0
        &&& 0 < order.remaining_quantity <= order.quantity
        &&& !self@.orders.contains_key(order.order_id)
    }

    /// Queues `order` at the tail of its price level, creating the level
    /// when there is none. An order that can rest must not cross the book:
    /// an order that could trade is matched, not rested.
    ///
    /// The checks are made in this order: quantity, price, remaining
    /// quantity, id. An order that fails one leaves the book untouched.
    pub fn add_order(&mut self, order: OrderEntry) -> (result: Result<(), OrderBookError>)
        requires
            old(self).wf(),
            old(self).can_rest(order) ==> !old(self)@.crosses(order.side, order.price),
        ensures
            final(self).wf(),
            final(self).spec_symbol() == old(self).spec_symbol(),
            result is Ok <==> old(self).can_rest(order),
            result is Ok ==> final(self)@ == old(self)@.rest(order) && !final(self).cache_is_latest(),
            result is Err ==> *final(self) == *old(self),
            order.quantity == 0 ==> (result matches Err(e) && e.is_invalid_order(
                OrderEntry::quantity_message(),
            )),
            order.quantity > 0 && order.price == 0 ==> (result matches Err(e) && e.is_invalid_order(
                OrderEntry::price_message(),
            )),
            order.quantity > 0 && order.price > 0 && !(0 < order.remaining_quantity
                <= order.quantity) ==> (result matches Err(e) && e.is_invalid_order(
                Self::remaining_message(),
            )),
            order.quantity > 0 && order.price > 0 && 0 < order.remaining_quantity <= order.quantity
                && old(self)@.orders.contains_key(order.order_id) ==> (result matches Err(e)
                && e.is_invalid_order(Self::duplicate_message())),
    {
        match order.validate_order() {
            Err(e) => {
                return Err(e);
            },
            Ok(()) => {},
        }
        if order.remaining_quantity == 0 || order.remaining_quantity > order.quantity {
            return Err(
                OrderBookError::InvalidOrder(
                    "Remaining quantity must be between 1 and the quantity".to_owned(),
                ),
            );
        }
        let order_id = order.order_id;
        let price = order.price;
        if self.orders.contains_key(&order_id) {
            return Err(OrderBookError::InvalidOrder("Order id is already in the book".to_owned()));
        }
        proof {
            old(self)@.lemma_rest_wf(order);
            lemma_extremes(old(self)@.bids.dom());
            lemma_extremes(old(self)@.asks.dom());
        }
        self.orders.insert(order_id, order);
        match order.side {
            Side::Buy => {
                push_to_ladder(
                    &mut self.bids,
                    price,
                    order_id,
                    order.remaining_quantity,
                    Ghost(old(self).orders@),
                );
                match self.best_bid {
                    None => {
                        self.best_bid = Some(price);
                    },
                    Some(best) => {
                        if price > best {
                            self.best_bid = Some(price);
                        }
                    },
                }
            },
            Side::Sell => {
                push_to_ladder(
                    &mut self.asks,
                    price,
                    order_id,
                    order.remaining_quantity,
                    Ghost(old(self).orders@),
                );
                match self.best_ask {
                    None => {
                        self.best_ask = Some(price);
                    },
                    Some(best) => {
                        if price < best {
                            self.best_ask = Some(price);
                        }
                    },
                }
            },
        }
        self.depth_cache.is_latest = false;
        proof {
            let before = old(self)@;
            let after = before.rest(order);
            assert(self@.orders == after.orders);
            assert(self@.bids =~= after.bids);
            assert(self@.asks =~= after.asks);
            assert(self@ == after);
            self.lemma_rested(old(self), order);
        }
        Ok(())
    }

    /// What the book keeps beside its contents is right after `order` has
    /// been queued.
    proof fn lemma_rested(&self, before: &OrderBook, order: OrderEntry)
        requires
            before.wf(),
            !before@.orders.contains_key(order.order_id),
            self@ == before@.rest(order),
            self@.wf(),
            !self.depth_cache.is_latest,
            self.orders@ == before.orders@.insert(order.order_id, order),
            order.side == Side::Buy ==> {
                &&& self.asks@ == before.asks@
                &&& self.best_ask == before.best_ask
                &&& self.bids@.dom() == before.bids@.dom().insert(order.price)
                &&& forall|p: Price|
                    p != order.price && before.bids@.contains_key(p) ==> self.bids@[p]
                        == before.bids@[p]
                &&& self.bids@[order.price].spec_price() == order.price
                &&& self.bids@[order.price].total() == order.remaining_quantity
                    + if before.bids@.contains_key(order.price) {
                    before.bids@[order.price].total()
                } else {
                    0
                }
                &&& self.best_bid == match before.best_bid {
                    None => Some(order.price),
                    Some(b) => if order.price > b {
                        Some(order.price)
                    } else {
                        Some(b)
                    },
                }
            },
            order.side == Side::Sell ==> {
                &&& self.bids@ == before.bids@
                &&& self.best_bid == before.best_bid
                &&& self.asks@.dom() == before.asks@.dom().insert(order.price)
                &&& forall|p: Price|
                    p != order.price && before.asks@.contains_key(p) ==> self.asks@[p]
                        == before.asks@[p]
                &&& self.asks@[order.price].spec_price() == order.price
                &&& self.asks@[order.price].total() == order.remaining_quantity
                    + if before.asks@.contains_key(order.price) {
                    before.asks@[order.price].total()
                } else {
                    0
                }
                &&& self.best_ask == match before.best_ask {
                    None => Some(order.price),
                    Some(a) => if order.price < a {
                        Some(order.price)
                    } else {
                        Some(a)
                    },
                }
            },
        ensures
            self.inv(),
    {
        let id = order.order_id;
        let price = order.price;
        let s = before@;
        lemma_extremes(s.bids.dom());
        lemma_extremes(s.asks.dom());
        assert forall|p: Price| #[trigger] before.bids@.contains_key(p) implies !before.bids@[p].ids().contains(
            id,
        ) by {
            assert(s.bids.contains_key(p));
            if s.bids[p].contains(id) {
                let i = choose|i: int| 0 <= i < s.bids[p].len() && s.bids[p][i] == id;
                assert(s.orders.contains_key(s.bids[p][i]));
            }
        }
        assert forall|p: Price| #[trigger] before.asks@.contains_key(p) implies !before.asks@[p].ids().contains(
            id,
        ) by {
            assert(s.asks.contains_key(p));
            if s.asks[p].contains(id) {
                let i = choose|i: int| 0 <= i < s.asks[p].len() && s.asks[p][i] == id;
                assert(s.orders.contains_key(s.asks[p][i]));
            }
        }
        lemma_levels_frame(before.bids@, before.orders@, self.orders@, id, None);
        lemma_levels_frame(before.asks@, before.orders@, self.orders@, id, None);
        match order.side {
            Side::Buy => {
                let queue = self.bids@[price].ids();
                assert(queue == self@.bids[price]);
                if before.bids@.contains_key(price) {
                    assert(s.bids.contains_key(price));
                    lemma_open_quantity_push(before.bids@[price].ids(), self.orders@, id);
                } else {
                    lemma_open_quantity_push(Seq::<OrderId>::empty(), self.orders@, id);
                    assert(Seq::<OrderId>::empty().push(id) =~= seq![id]);
                }
                assert(levels_ok(self.bids@, self.orders@));
                assert(self@.bids.dom() =~= s.bids.dom().insert(price));
                match before.best_bid {
                    None => {
                        assert(is_highest(self@.bids.dom(), price));
                        lemma_highest_is(self@.bids.dom(), price);
                    },
                    Some(b) => {
                        if price > b {
                            assert(is_highest(self@.bids.dom(), price));
                            lemma_highest_is(self@.bids.dom(), price);
                        } else {
                            assert(is_highest(self@.bids.dom(), b));
                            lemma_highest_is(self@.bids.dom(), b);
                        }
                    },
                }
            },
            Side::Sell => {
                let queue = self.asks@[price].ids();
                assert(queue == self@.asks[price]);
                if before.asks@.contains_key(price) {
                    assert(s.asks.contains_key(price));
                    lemma_open_quantity_push(before.asks@[price].ids(), self.orders@, id);
                } else {
                    lemma_open_quantity_push(Seq::<OrderId>::empty(), self.orders@, id);
                    assert(Seq::<OrderId>::empty().push(id) =~= seq![id]);
                }
                assert(levels_ok(self.asks@, self.orders@));
                assert(self@.asks.dom() =~= s.asks.dom().insert(price));
                match before.best_ask {
                    None => {
                        assert(is_lowest(self@.asks.dom(), price));
                        lemma_lowest_is(self@.asks.dom(), price);
                    },
                    Some(a) => {
                        if price < a {
                            assert(is_lowest(self@.asks.dom(), price));
                            lemma_lowest_is(self@.asks.dom(), price);
                        } else {
                            assert(is_lowest(self@.asks.dom(), a));
                            lemma_lowest_is(self@.asks.dom(), a);
                        }
                    },
                }
            },
        }
    }

    /// Takes the resting order `order_id` out of the book and returns its
    /// record. Its level goes with it when it was the last one there.
    pub fn remove_order(&mut self, order_id: OrderId) -> (result: Result<
        Option<OrderEntry>,
        OrderBookError,
    >)
        requires
            old(self).wf(),
        ensures
            final(self).wf(),
            final(self).spec_symbol() == old(self).spec_symbol(),
            match result {
                Ok(removed) => {
                    &&& old(self)@.orders.contains_key(order_id)
                    &&& removed == Some(old(self)@.orders[order_id])
                    &&& final(self)@ == old(self)@.remove(order_id)
                    &&& !final(self).cache_is_latest()
                },
                Err(e) => {
                    &&& !old(self)@.orders.contains_key(order_id)
                    &&& e == OrderBookError::OrderNotFound(order_id)
                    &&& *final(self) == *old(self)
                },
            },
    {
        let order = match self.orders.get(&order_id) {
            None => {
                return Err(OrderBookError::OrderNotFound(order_id));
            },
            Some(order) => *order,
        };
        self.orders.remove(&order_id);
        let price = order.price;
        proof {
            let s = old(self)@;
            assert(s.orders.contains_key(order_id));
            assert(s.entry_ok(order_id));
            s.lemma_remove_wf(order_id);
            lemma_extremes(s.bids.dom());
            lemma_extremes(s.asks.dom());
            assert(s.ladder(order.side).contains_key(price));
        }
        match order.side {
            Side::Buy => {
                assert(old(self).bids@.contains_key(price));
                let emptied = remove_from_ladder(
                    &mut self.bids,
                    price,
                    order_id,
                    order.remaining_quantity,
                    Ghost(old(self).orders@),
                );
                if emptied && self.best_bid == Some(price) {
                    self.best_bid = highest_price_at_most(&self.bids, u64::MAX);
                }
            },
            Side::Sell => {
                assert(old(self).asks@.contains_key(price));
                let emptied = remove_from_ladder(
                    &mut self.asks,
                    price,
                    order_id,
                    order.remaining_quantity,
                    Ghost(old(self).orders@),
                );
                if emptied && self.best_ask == Some(price) {
                    self.best_ask = lowest_price_at_least(&self.asks, 0);
                }
            },
        }
        self.depth_cache.is_latest = false;
        proof {
            let before = old(self)@;
            let after = before.remove(order_id);
            assert(self@.orders == after.orders);
            assert(self@.bids =~= after.bids);
            assert(self@.asks =~= after.asks);
            assert(self@ == after);
            self.lemma_removed(old(self), order_id);
        }
        Ok(Some(order))
    }

    /// What the book keeps beside its contents is right after `id` has
    /// been taken out.
    proof fn lemma_removed(&self, before: &OrderBook, id: OrderId)
        requires
            before.wf(),
            before@.orders.contains_key(id),
            self@ == before@.remove(id),
            self@.wf(),
            !self.depth_cache.is_latest,
            self.orders@ == before.orders@.remove(id),
            ({
                let e = before@.orders[id];
                let emptied = before@.ladder(e.side)[e.price].len() == 1;
                &&& e.side == Side::Buy ==> {
                    &&& self.asks@ == before.asks@
                    &&& self.best_ask == before.best_ask
                    &&& forall|p: Price|
                        p != e.price && before.bids@.contains_key(p) ==> self.bids@[p]
                            == before.bids@[p]
                    &&& emptied ==> self.bids@ == before.bids@.remove(e.price)
                    &&& !emptied ==> {
                        &&& self.bids@.dom() == before.bids@.dom()
                        &&& self.bids@[e.price].spec_price() == e.price
                        &&& self.bids@[e.price].total() == before.bids@[e.price].total()
                            - e.remaining_quantity
                    }
                    &&& self.best_bid == if emptied && before.best_bid == Some(e.price) {
                        self.best_bid
                    } else {
                        before.best_bid
                    }
                    &&& emptied && before.best_bid == Some(e.price) ==> match self.best_bid {
                        Some(b) => is_highest(at_most(self.bids@.dom(), u64::MAX as int), b),
                        None => forall|q: Price| self.bids@.contains_key(q) ==> q > u64::MAX,
                    }
                }
                &&& e.side == Side::Sell ==> {
                    &&& self.bids@ == before.bids@
                    &&& self.best_bid == before.best_bid
                    &&& forall|p: Price|
                        p != e.price && before.asks@.contains_key(p) ==> self.asks@[p]
                            == before.asks@[p]
                    &&& emptied ==> self.asks@ == before.asks@.remove(e.price)
                    &&& !emptied ==> {
                        &&& self.asks@.dom() == before.asks@.dom()
                        &&& self.asks@[e.price].spec_price() == e.price
                        &&& self.asks@[e.price].total() == before.asks@[e.price].total()
                            - e.remaining_quantity
                    }
                    &&& self.best_ask == if emptied && before.best_ask == Some(e.price) {
                        self.best_ask
                    } else {
                        before.best_ask
                    }
                    &&& emptied && before.best_ask == Some(e.price) ==> match self.best_ask {
                        Some(a) => is_lowest(at_least(self.asks@.dom(), 0), a),
                        None => forall|q: Price| self.asks@.contains_key(q) ==> q < 0,
                    }
                }
            }),
        ensures
            self.inv(),
    {
        let s = before@;
        let e = s.orders[id];
        let price = e.price;
        lemma_extremes(s.bids.dom());
        lemma_extremes(s.asks.dom());
        assert(s.entry_ok(id));
        assert forall|p: Price|
            #[trigger] before.bids@.contains_key(p) && !(e.side == Side::Buy && p
                == price) implies !before.bids@[p].ids().contains(id) by {
            assert(s.bids.contains_key(p));
            if s.bids[p].contains(id) {
                let i = choose|i: int| 0 <= i < s.bids[p].len() && s.bids[p][i] == id;
                assert(s.orders.contains_key(s.bids[p][i]));
            }
        }
        assert forall|p: Price|
            #[trigger] before.asks@.contains_key(p) && !(e.side == Side::Sell && p
                == price) implies !before.asks@[p].ids().contains(id) by {
            assert(s.asks.contains_key(p));
            if s.asks[p].contains(id) {
                let i = choose|i: int| 0 <= i < s.asks[p].len() && s.asks[p][i] == id;
                assert(s.orders.contains_key(s.asks[p][i]));
            }
        }
        let skip_bid = if e.side == Side::Buy {
            Some(price)
        } else {
            None
        };
        let skip_ask = if e.side == Side::Sell {
            Some(price)
        } else {
            None
        };
        lemma_levels_frame(before.bids@, before.orders@, self.orders@, id, skip_bid);
        lemma_levels_frame(before.asks@, before.orders@, self.orders@, id, skip_ask);
        let queue = s.ladder(e.side)[price];
        lemma_first_index_of_member(queue, id);
        let at = first_index_of(queue, id);
        lemma_open_quantity_remove(queue, before.orders@, at);
        let rest = queue.remove(at);
        assert forall|i: int| 0 <= i < rest.len() implies before.orders@[#[trigger] rest[i]].remaining_quantity
            == self.orders@[rest[i]].remaining_quantity by {
            if i < at {
                assert(rest[i] == queue[i]);
            } else {
                assert(rest[i] == queue[i + 1]);
            }
        }
        lemma_open_quantity_frame(rest, before.orders@, self.orders@);
        match e.side {
            Side::Buy => {
                assert(before.bids@.contains_key(price));
                if queue.len() != 1 {
                    assert(self@.bids[price] == rest);
                }
                assert(levels_ok(self.bids@, self.orders@));
                assert(levels_ok(self.asks@, self.orders@));
                assert(at_most(self.bids@.dom(), u64::MAX as int) =~= self@.bids.dom());
                if queue.len() == 1 {
                    assert(self@.bids.dom() =~= s.bids.dom().remove(price));
                    if before.best_bid == Some(price) {
                        match self.best_bid {
                            Some(b) => {
                                lemma_highest_is(self@.bids.dom(), b);
                            },
                            None => {
                                lemma_no_extreme_of_empty(self@.bids.dom());
                            },
                        }
                    } else {
                        match before.best_bid {
                            Some(b) => {
                                assert(is_highest(self@.bids.dom(), b));
                                lemma_highest_is(self@.bids.dom(), b);
                            },
                            None => {},
                        }
                    }
                } else {
                    assert(self@.bids.dom() =~= s.bids.dom());
                }
            },
            Side::Sell => {
                assert(before.asks@.contains_key(price));
                if queue.len() != 1 {
                    assert(self@.asks[price] == rest);
                }
                assert(levels_ok(self.bids@, self.orders@));
                assert(levels_ok(self.asks@, self.orders@));
                assert(at_least(self.asks@.dom(), 0) =~= self@.asks.dom());
                if queue.len() == 1 {
                    assert(self@.asks.dom() =~= s.asks.dom().remove(price));
                    if before.best_ask == Some(price) {
                        match self.best_ask {
                            Some(a) => {
                                lemma_lowest_is(self@.asks.dom(), a);
                            },
                            None => {
                                lemma_no_extreme_of_empty(self@.asks.dom());
                            },
                        }
                    } else {
                        match before.best_ask {
                            Some(a) => {
                                assert(is_lowest(self@.asks.dom(), a));
                                lemma_lowest_is(self@.asks.dom(), a);
                            },
                            None => {},
                        }
                    }
                } else {
                    assert(self@.asks.dom() =~= s.asks.dom());
                }
            },
        }
    }

    /// A fill of `quantity` can be applied to the resting order `order_id`.
    pub open spec fn can_fill(&self, order_id: OrderId, quantity: Quantity) -> bool {
        self@.orders.contains_key(order_id) && quantity <= self@.orders[order_id].remaining_quantity
    }

    /// Applies a fill of `filled_qty` to the resting order `order_id`: the
    /// order and its level give up that much, and the order leaves the book
    /// when nothing of it is left. A fill that cannot be applied leaves the
    /// book untouched.
    pub fn update_order_quantity(&mut self, order_id: OrderId, filled_qty: Quantity)
        requires
            old(self).wf(),
        ensures
            final(self).wf(),
            final(self).spec_symbol() == old(self).spec_symbol(),
            final(self)@ == old(self)@.fill(order_id, filled_qty),
            old(self).can_fill(order_id, filled_qty) ==> !final(self).cache_is_latest(),
            !old(self).can_fill(order_id, filled_qty) ==> *final(self) == *old(self),
    {
        let order = match self.orders.get(&order_id) {
            None => {
                return ;
            },
            Some(order) => *order,
        };
        if filled_qty > order.remaining_quantity {
            return ;
        }
        if filled_qty == order.remaining_quantity {
            let _ = self.remove_order(order_id);
            return ;
        }
        let price = order.price;
        let mut updated = order;
        let _ = updated.fill(filled_qty);
        proof {
            let s = old(self)@;
            assert(s.orders.contains_key(order_id));
            assert(s.entry_ok(order_id));
            s.lemma_fill_wf(order_id, filled_qty);
            assert(s.ladder(order.side).contains_key(price));
            let queue = s.ladder(order.side)[price];
            lemma_first_index_of_member(queue, order_id);
            lemma_open_quantity_remove(queue, s.orders, first_index_of(queue, order_id));
        }
        self.orders.insert(order_id, updated);
        match order.side {
            Side::Buy => {
                assert(old(self).bids@.contains_key(price));
                reduce_in_ladder(&mut self.bids, price, filled_qty);
            },
            Side::Sell => {
                assert(old(self).asks@.contains_key(price));
                reduce_in_ladder(&mut self.asks, price, filled_qty);
            },
        }
        self.depth_cache.is_latest = false;
        proof {
            let before = old(self)@;
            let after = before.fill(order_id, filled_qty);
            assert(self@.orders == after.orders);
            assert(self@.bids =~= after.bids);
            assert(self@.asks =~= after.asks);
            assert(self@ == after);
            self.lemma_reduced(old(self), order_id, filled_qty);
        }
    }

    /// What the book keeps beside its contents is right after part of `id`
    /// has traded.
    proof fn lemma_reduced(&self, before: &OrderBook, id: OrderId, quantity: Quantity)
        requires
            before.wf(),
            before@.orders.contains_key(id),
            quantity < before@.orders[id].remaining_quantity,
            self@ == before@.fill(id, quantity),
            self@.wf(),
            !self.depth_cache.is_latest,
            self.best_bid == before.best_bid,
            self.best_ask == before.best_ask,
            ({
                let e = before@.orders[id];
                &&& e.side == Side::Buy ==> {
                    &&& self.asks@ == before.asks@
                    &&& self.bids@.dom() == before.bids@.dom()
                    &&& forall|p: Price|
                        p != e.price && before.bids@.contains_key(p) ==> self.bids@[p]
                            == before.bids@[p]
                    &&& self.bids@[e.price].spec_price() == e.price
                    &&& self.bids@[e.price].ids() == before.bids@[e.price].ids()
                    &&& self.bids@[e.price].total() == before.bids@[e.price].total() - quantity
                }
                &&& e.side == Side::Sell ==> {
                    &&& self.bids@ == before.bids@
                    &&& self.asks@.dom() == before.asks@.dom()
                    &&& forall|p: Price|
                        p != e.price && before.asks@.contains_key(p) ==> self.asks@[p]
                            == before.asks@[p]
                    &&& self.asks@[e.price].spec_price() == e.price
                    &&& self.asks@[e.price].ids() == before.asks@[e.price].ids()
                    &&& self.asks@[e.price].total() == before.asks@[e.price].total() - quantity
                }
            }),
        ensures
            self.inv(),
    {
        let s = before@;
        let e = s.orders[id];
        let price = e.price;
        assert(s.entry_ok(id));
        assert forall|p: Price|
            #[trigger] before.bids@.contains_key(p) && !(e.side == Side::Buy && p
                == price) implies !before.bids@[p].ids().contains(id) by {
            assert(s.bids.contains_key(p));
            if s.bids[p].contains(id) {
                let i = choose|i: int| 0 <= i < s.bids[p].len() && s.bids[p][i] == id;
                assert(s.orders.contains_key(s.bids[p][i]));
            }
        }
        assert forall|p: Price|
            #[trigger] before.asks@.contains_key(p) && !(e.side == Side::Sell && p
                == price) implies !before.asks@[p].ids().contains(id) by {
            assert(s.asks.contains_key(p));
            if s.asks[p].contains(id) {
                let i = choose|i: int| 0 <= i < s.asks[p].len() && s.asks[p][i] == id;
                assert(s.orders.contains_key(s.asks[p][i]));
            }
        }
        let skip_bid = if e.side == Side::Buy {
            Some(price)
        } else {
            None
        };
        let skip_ask = if e.side == Side::Sell {
            Some(price)
        } else {
            None
        };
        lemma_levels_frame(before.bids@, before.orders@, self.orders@, id, skip_bid);
        lemma_levels_frame(before.asks@, before.orders@, self.orders@, id, skip_ask);
        let queue = s.ladder(e.side)[price];
        assert(ladder_ok(s.ladder(e.side), e.side, s.orders));
        lemma_first_index_of_member(queue, id);
        let at = first_index_of(queue, id);
        lemma_open_quantity_remove(queue, before.orders@, at);
        lemma_open_quantity_remove(queue, self.orders@, at);
        let rest = queue.remove(at);
        assert forall|i: int| 0 <= i < rest.len() implies before.orders@[#[trigger] rest[i]].remaining_quantity
            == self.orders@[rest[i]].remaining_quantity by {
            if i < at {
                assert(rest[i] == queue[i]);
            } else {
                assert(rest[i] == queue[i + 1]);
            }
        }
        lemma_open_quantity_frame(rest, before.orders@, self.orders@);
        match e.side {
            Side::Buy => {
                assert(before.bids@.contains_key(price));
                assert(levels_ok(self.bids@, self.orders@));
                assert(self@.bids.dom() =~= s.bids.dom());
            },
            Side::Sell => {
                assert(before.asks@.contains_key(price));
                assert(levels_ok(self.asks@, self.orders@));
                assert(self@.asks.dom() =~= s.asks.dom());
            },
        }
    }

    /// The resting order that an incoming order on `side` would trade with
    /// first: the oldest order at the best price of the other side.
    pub fn get_next_matchable_order(&self, side: Side) -> (candidate: Option<OrderId>)
        requires
            self.wf(),
        ensures
            candidate == self@.next_match_candidate(side),
            candidate matches Some(id) ==> self@.orders.contains_key(id) && self@.orders[id].side
                == side.opposite() && Some(self@.orders[id].price) == self@.best(side.opposite()),
    {
        proof {
            lemma_extremes(self@.bids.dom());
            lemma_extremes(self@.asks.dom());
        }
        match side {
            Side::Buy => match self.best_ask {
                None => None,
                Some(price) => {
                    assert(self@.asks.contains_key(price));
                    assert(self.asks@.contains_key(price));
                    match self.asks.get(&price) {
                        Some(level) => level.front_order(),
                        None => None,
                    }
                },
            },
            Side::Sell => match self.best_bid {
                None => None,
                Some(price) => {
                    assert(self@.bids.contains_key(price));
                    assert(self.bids@.contains_key(price));
                    match self.bids.get(&price) {
                        Some(level) => level.front_order(),
                        None => None,
                    }
                },
            },
        }
    }

    /// Recomputes the cached top of the book when a change has made it
    /// stale: one walk over each ladder, best level first.
    pub fn update_depth_cache(&mut self)
        requires
            old(self).wf(),
        ensures
            final(self).wf(),
            final(self)@ == old(self)@,
            final(self).spec_symbol() == old(self).spec_symbol(),
            final(self).cache_is_latest(),
    {
        if self.depth_cache.is_latest {
            return ;
        }
        let bids = collect_bids(&self.bids, CACHE_LIMIT, Ghost(self.orders@));
        let asks = collect_asks(&self.asks, CACHE_LIMIT, Ghost(self.orders@));
        self.depth_cache = CachedDepth { bids, asks, is_latest: true };
    }

    /// The best `limit` levels of each side, bids from the highest price
    /// down and asks from the lowest price up; never more levels than the
    /// cache keeps. Refreshes the cache when it is stale.
    pub fn get_depth(&mut self, limit: usize) -> (depth: Depth)
        requires
            old(self).wf(),
        ensures
            final(self).wf(),
            final(self)@ == old(self)@,
            final(self).spec_symbol() == old(self).spec_symbol(),
            final(self).cache_is_latest(),
            depth.bids@ == old(self)@.depth_side(
                Side::Buy,
                if limit <= CACHE_LIMIT {
                    limit as nat
                } else {
                    CACHE_LIMIT as nat
                },
            ),
            depth.asks@ == old(self)@.depth_side(
                Side::Sell,
                if limit <= CACHE_LIMIT {
                    limit as nat
                } else {
                    CACHE_LIMIT as nat
                },
            ),
    {
        if !self.depth_cache.is_latest {
            self.update_depth_cache();
        }
        let bids = leading(&self.depth_cache.bids, limit);
        let asks = leading(&self.depth_cache.asks, limit);
        proof {
            let fewer: nat = if limit <= CACHE_LIMIT {
                limit as nat
            } else {
                CACHE_LIMIT as nat
            };
            lemma_depth_prefix(self@.bids, self@.orders, Side::Buy, CACHE_LIMIT as nat, fewer);
            lemma_depth_prefix(self@.asks, self@.orders, Side::Sell, CACHE_LIMIT as nat, fewer);
            if limit > CACHE_LIMIT {
                assert(self.depth_cache.bids@.take(self.depth_cache.bids@.len() as int)
                    =~= self.depth_cache.bids@);
                assert(self.depth_cache.asks@.take(self.depth_cache.asks@.len() as int)
                    =~= self.depth_cache.asks@);
            }
        }
        Depth { bids, asks }
    }

    /// The aggregate open quantity on `side` at `price`, where a level is.
    pub fn level_quantity(&self, side: Side, price: Price) -> (total: Option<u128>)
        requires
            self.wf(),
        ensures
            match total {
                Some(t) => self@.ladder(side).contains_key(price) && t == self@.level_total(
                    side,
                    price,
                ),
                None => !self@.ladder(side).contains_key(price),
            },
    {
        let found = match side {
            Side::Buy => self.bids.get(&price),
            Side::Sell => self.asks.get(&price),
        };
        match found {
            Some(level) => Some(level.get_total_quantity()),
            None => None,
        }
    }

    /// The ids queued on `side` at `price`, oldest first; none where there
    /// is no level.
    pub fn level_orders(&self, side: Side, price: Price) -> (ids: Vec<OrderId>)
        ensures
            ids@ == if self@.ladder(side).contains_key(price) {
                self@.ladder(side)[price]
            } else {
                Seq::<OrderId>::empty()
            },
    {
        let found = match side {
            Side::Buy => self.bids.get(&price),
            Side::Sell => self.asks.get(&price),
        };
        match found {
            Some(level) => level.order_ids(),
            None => Vec::new(),
        }
    }

    /// The best price on `side` with the aggregate open quantity there.
    pub fn top_of_book(&self, side: Side) -> (top: Option<(Price, u128)>)
        requires
            self.wf(),
        ensures
            match top {
                Some(level) => self@.top(side) == Some((level.0, level.1 as nat)),
                None => self@.top(side) is None,
            },
    {
        proof {
            lemma_extremes(self@.bids.dom());
            lemma_extremes(self@.asks.dom());
        }
        let best = match side {
            Side::Buy => self.best_bid,
            Side::Sell => self.best_ask,
        };
        match best {
            None => None,
            Some(price) => {
                assert(self@.ladder(side).contains_key(price));
                match self.level_quantity(side, price) {
                    Some(total) => Some((price, total)),
                    None => None,
                }
            },
        }
    }

    /// The top of the book as it is published: the levels the cache keeps
    /// of each side and the price of the last trade.
    pub fn book_update(&mut self) -> (update: BookUpdate)
        requires
            old(self).wf(),
        ensures
            final(self).wf(),
            final(self)@ == old(self)@,
            final(self).spec_symbol() == old(self).spec_symbol(),
            final(self).cache_is_latest(),
            old(self)@.is_shown_by(update, old(self).spec_symbol(), CACHE_LIMIT as nat),
    {
        let depth = self.get_depth(CACHE_LIMIT);
        BookUpdate {
            symbol: self.symbol(),
            bids: published(&depth.bids),
            asks: published(&depth.asks),
            last_price: self.last_price,
        }
    }

    pub fn best_bid(&self) -> (best: Option<Price>)
        requires
            self.wf(),
        ensures
            best == self@.best_bid(),
    {
        self.best_bid
    }

    pub fn best_ask(&self) -> (best: Option<Price>)
        requires
            self.wf(),
        ensures
            best == self@.best_ask(),
    {
        self.best_ask
    }

    /// The price of the last trade, if there has been one.
    pub fn last_price(&self) -> (last: Option<Price>)
        ensures
            last == self@.last_price,
    {
        self.last_price
    }

    /// The number the next trade will get.
    pub fn next_trade_id(&self) -> (next: u64)
        ensures
            next == self@.next_trade_id,
    {
        self.next_trade_id
    }

    /// How many orders rest in the book.
    pub fn len(&self) -> (len: usize)
        ensures
            len == self@.orders.len(),
    {
        self.orders.len()
    }

    pub fn get_symbol(&self) -> (symbol: &str)
        ensures
            symbol@ == self.spec_symbol()@,
    {
        self.symbol.as_str()
    }

    /// Whether this is the book of `symbol`.
    pub fn has_symbol(&self, symbol: &String) -> (same: bool)
        ensures
            same == (self.spec_symbol()@ == symbol@),
    {
        self.symbol == *symbol
    }

    /// The symbol, as an owned string.
    pub fn symbol(&self) -> (symbol: String)
        ensures
            symbol == self.spec_symbol(),
    {
        self.symbol.clone()
    }

    /// The record of the resting order `order_id`.
    pub fn get_order(&self, order_id: OrderId) -> (found: Option<&OrderEntry>)
        ensures
            match found {
                Some(e) => self@.orders.contains_key(order_id) && *e == self@.orders[order_id],
                None => !self@.orders.contains_key(order_id),
            },
    {
        self.orders.get(&order_id)
    }
}

} // verus!
