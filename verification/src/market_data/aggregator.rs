//! The per-symbol ticker rollup and the depth throttle.

use vstd::prelude::*;
use vstd::hash_map::StringHashMap;
use crate::clock::now_millis;
use crate::market_data::types::{
    views, DepthEvent, DepthEventView, Event, EventView, TickerEvent, TickerEventView, TradeEvent,
    TradeEventView,
};
use crate::protocol::{Price, Quantity};

verus! {

/// The default spacing of depth events, in milliseconds.
pub const DEFAULT_DEPTH_INTERVAL_MS: i64 = 100;

/// The rolling summary of one symbol's trades.
#[derive(Clone, Copy, Debug, PartialEq, Eq, Structural)]
pub struct TickerState {
    pub last_price: Option<Price>,
    pub open_24h: Option<Price>,
    pub high_24h: Price,
    pub low_24h: Price,
    pub volume_24h: Quantity,
    pub last_trade_time: i64,
}

/// The volume after `quantity` more has traded; it stops at the greatest
/// 64-bit quantity.
pub open spec fn added_volume(volume: Quantity, quantity: Quantity) -> Quantity {
    if volume + quantity > u64::MAX {
        u64::MAX
    } else {
        (volume + quantity) as Quantity
    }
}

/// The change from `open` to `last` in hundredths of a percent of `open`,
/// rounded toward zero; undefined when `open` is zero.
pub open spec fn change_bps(last: Price, open: Price) -> Option<i128> {
    if open == 0 {
        None
    } else if last >= open {
        Some((((last - open) * 10000) / (open as int)) as i128)
    } else {
        Some((-(((open - last) * 10000) / (open as int))) as i128)
    }
}

impl TickerState {
    pub open spec fn spec_new() -> TickerState {
        TickerState {
            last_price: None,
            open_24h: None,
            high_24h: 0,
            low_24h: u64::MAX,
            volume_24h: 0,
            last_trade_time: 0,
        }
    }

    /// The summary of a symbol that has not traded.
    #[verifier::when_used_as_spec(spec_new)]
    pub fn new() -> (state: TickerState)
        ensures
            state == Self::spec_new(),
    {
        TickerState {
            last_price: None,
            open_24h: None,
            high_24h: 0,
            low_24h: u64::MAX,
            volume_24h: 0,
            last_trade_time: 0,
        }
    }

    /// The summary after a trade of `quantity` at `price` at time
    /// `timestamp`. The first trade sets the opening price and both
    /// extremes; every trade sets the last price and time, widens the
    /// extremes and adds to the volume.
    pub open spec fn spec_after_trade(
        self,
        price: Price,
        quantity: Quantity,
        timestamp: i64,
    ) -> TickerState {
        let first = self.open_24h is None;
        let high = if first {
            price
        } else {
            self.high_24h
        };
        let low = if first {
            price
        } else {
            self.low_24h
        };
        TickerState {
            last_price: Some(price),
            open_24h: if first {
                Some(price)
            } else {
                self.open_24h
            },
            high_24h: if price > high {
                price
            } else {
                high
            },
            low_24h: if price < low {
                price
            } else {
                low
            },
            volume_24h: added_volume(self.volume_24h, quantity),
            last_trade_time: timestamp,
        }
    }

    #[verifier::when_used_as_spec(spec_after_trade)]
    pub fn after_trade(self, price: Price, quantity: Quantity, timestamp: i64) -> (next:
        TickerState)
        ensures
            next == self.spec_after_trade(price, quantity, timestamp),
    {
        let mut state = self;
        if state.open_24h.is_none() {
            state.open_24h = Some(price);
            state.high_24h = price;
            state.low_24h = price;
        }
        state.last_price = Some(price);
        state.last_trade_time = timestamp;
        state.volume_24h = if state.volume_24h > u64::MAX - quantity {
            u64::MAX
        } else {
            state.volume_24h + quantity
        };
        if price > state.high_24h {
            state.high_24h = price;
        }
        if price < state.low_24h {
            state.low_24h = price;
        }
        state
    }

    /// The ticker of `symbol` published at `now`, for a symbol that has
    /// traded.
    pub open spec fn ticker(self, symbol: Seq<char>, now: i64) -> TickerEventView {
        let last = self.last_price->0;
        let open = self.open_24h->0;
        TickerEventView {
            symbol,
            last_price: last,
            open,
            high: self.high_24h,
            low: self.low_24h,
            volume: self.volume_24h,
            price_change: (last - open) as i128,
            price_change_bps: change_bps(last, open),
            timestamp: now,
        }
    }

    /// After every trade the last price lies between the low and the high,
    /// and the volume has not gone down.
    pub proof fn lemma_after_trade_bounds(
        self,
        price: Price,
        quantity: Quantity,
        timestamp: i64,
    )
        ensures
            ({
                let next = self.after_trade(price, quantity, timestamp);
                &&& next.last_price == Some(price)
                &&& next.low_24h <= price <= next.high_24h
                &&& next.volume_24h >= self.volume_24h
                &&& next.open_24h is Some
                &&& self.open_24h is Some ==> {
                    &&& next.open_24h == self.open_24h
                    &&& next.high_24h >= self.high_24h
                    &&& next.low_24h <= self.low_24h
                }
            }),
    {
    }
}

/// The change from `open` to `last` in hundredths of a percent of `open`,
/// rounded toward zero; none when `open` is zero.
pub fn relative_change(last: Price, open: Price) -> (change: Option<i128>)
    ensures
        change == change_bps(last, open),
{
    if open == 0 {
        None
    } else if last >= open {
        let scaled: u128 = ((last - open) as u128) * 10000;
        Some((scaled / (open as u128)) as i128)
    } else {
        let scaled: u128 = ((open - last) as u128) * 10000;
        let quotient: u128 = scaled / (open as u128);
        assert(quotient <= scaled) by (nonlinear_arith)
            requires
                quotient == scaled / (open as u128),
                open > 0,
        ;
        Some(-(quotient as i128))
    }
}

/// What the aggregator remembers, by symbol.
pub struct AggregatorState {
    pub tickers: Map<Seq<char>, TickerState>,
    pub last_depth: Map<Seq<char>, DepthEventView>,
    pub last_depth_emit: Map<Seq<char>, i64>,
    pub depth_interval_ms: i64,
}

impl AggregatorState {
    /// The state of an aggregator that has seen nothing.
    pub open spec fn fresh(depth_interval_ms: i64) -> AggregatorState {
        AggregatorState {
            tickers: Map::empty(),
            last_depth: Map::empty(),
            last_depth_emit: Map::empty(),
            depth_interval_ms,
        }
    }

    /// The summary of `symbol`; that of an untraded symbol where none is
    /// kept.
    pub open spec fn ticker(self, symbol: Seq<char>) -> TickerState {
        if self.tickers.contains_key(symbol) {
            self.tickers[symbol]
        } else {
            TickerState::spec_new()
        }
    }

    /// When depth was last emitted for `symbol`; 0 where it never was.
    pub open spec fn last_emit(self, symbol: Seq<char>) -> i64 {
        if self.last_depth_emit.contains_key(symbol) {
            self.last_depth_emit[symbol]
        } else {
            0
        }
    }

    /// Depth for `symbol` is due at `now`: the interval has passed since it
    /// was last emitted.
    pub open spec fn depth_due(self, symbol: Seq<char>, now: i64) -> bool {
        now - self.last_emit(symbol) >= self.depth_interval_ms
    }

    /// The state after a trade.
    pub open spec fn after_trade(self, t: TradeEventView) -> AggregatorState {
        AggregatorState {
            tickers: self.tickers.insert(
                t.symbol,
                self.ticker(t.symbol).after_trade(t.price, t.quantity, t.timestamp),
            ),
            ..self
        }
    }

    /// The state after `event` has been processed at `now`.
    pub open spec fn after(self, event: EventView, now: i64) -> AggregatorState {
        match event {
            EventView::Trade(t) => self.after_trade(t),
            EventView::Depth(d) => AggregatorState {
                last_depth: self.last_depth.insert(d.symbol, d),
                last_depth_emit: if self.depth_due(d.symbol, now) {
                    self.last_depth_emit.insert(d.symbol, now)
                } else {
                    self.last_depth_emit
                },
                ..self
            },
            _ => self,
        }
    }

    /// What processing `event` at `now` emits: a trade and then the ticker
    /// it updated; depth when it is due and nothing when it is not; any
    /// other event as it came.
    pub open spec fn emitted(self, event: EventView, now: i64) -> Seq<EventView> {
        match event {
            EventView::Trade(t) => seq![
                event,
                EventView::Ticker(self.after_trade(t).ticker(t.symbol).ticker(t.symbol, now)),
            ],
            EventView::Depth(d) => if self.depth_due(d.symbol, now) {
                seq![event]
            } else {
                Seq::empty()
            },
            _ => seq![event],
        }
    }
}

/// One event and the time at which it is processed.
pub struct Step {
    pub event: EventView,
    pub now: i64,
}

impl AggregatorState {
    /// Processing `step` emits depth for `symbol`.
    pub open spec fn emits_depth(self, step: Step, symbol: Seq<char>) -> bool {
        step.event matches EventView::Depth(d) && d.symbol == symbol && self.depth_due(
            symbol,
            step.now,
        )
    }

    /// The state after `steps` have been processed in order.
    pub open spec fn after_all(self, steps: Seq<Step>) -> AggregatorState
        decreases steps.len(),
    {
        if steps.len() == 0 {
            self
        } else {
            self.after(steps[0].event, steps[0].now).after_all(steps.drop_first())
        }
    }

    /// None of `steps`, processed in order, emits depth for `symbol`.
    pub open spec fn quiet(self, steps: Seq<Step>, symbol: Seq<char>) -> bool
        decreases steps.len(),
    {
        if steps.len() == 0 {
            true
        } else {
            !self.emits_depth(steps[0], symbol) && self.after(steps[0].event, steps[0].now).quiet(
                steps.drop_first(),
                symbol,
            )
        }
    }

    /// A step that emits no depth for `symbol` leaves the time of the last
    /// emission for `symbol` as it was, and no step changes the interval.
    pub proof fn lemma_last_emit_kept(self, step: Step, symbol: Seq<char>)
        requires
            !self.emits_depth(step, symbol),
        ensures
            self.after(step.event, step.now).last_emit(symbol) == self.last_emit(symbol),
            self.after(step.event, step.now).depth_interval_ms == self.depth_interval_ms,
    {
    }

    /// Steps that emit no depth for `symbol` leave the time of the last
    /// emission for `symbol` as it was.
    pub proof fn lemma_quiet_keeps_last_emit(self, steps: Seq<Step>, symbol: Seq<char>)
        requires
            self.quiet(steps, symbol),
        ensures
            self.after_all(steps).last_emit(symbol) == self.last_emit(symbol),
            self.after_all(steps).depth_interval_ms == self.depth_interval_ms,
        decreases steps.len(),
    {
        if steps.len() > 0 {
            self.lemma_last_emit_kept(steps[0], symbol);
            self.after(steps[0].event, steps[0].now).lemma_quiet_keeps_last_emit(
                steps.drop_first(),
                symbol,
            );
        }
    }

    /// Two depth events for one symbol that are emitted one after the
    /// other, with none emitted for that symbol in between, are processed
    /// at least one interval apart.
    pub proof fn lemma_depth_spacing(
        self,
        first: Step,
        between: Seq<Step>,
        second: Step,
        symbol: Seq<char>,
    )
        requires
            self.emits_depth(first, symbol),
            self.after(first.event, first.now).quiet(between, symbol),
            self.after(first.event, first.now).after_all(between).emits_depth(second, symbol),
        ensures
            second.now - first.now >= self.depth_interval_ms,
    {
        let started = self.after(first.event, first.now);
        started.lemma_quiet_keeps_last_emit(between, symbol);
    }

    /// A trade is emitted as it came and followed by the ticker of its
    /// symbol, whose last price is the trade's and lies between its low and
    /// its high, and whose volume is no less than it was.
    pub proof fn lemma_ticker_bounds(self, t: TradeEventView, now: i64)
        ensures
            ({
                let out = self.emitted(EventView::Trade(t), now);
                &&& out.len() == 2
                &&& out[0] == EventView::Trade(t)
                &&& out[1] matches EventView::Ticker(k) && {
                    &&& k.symbol == t.symbol
                    &&& k.last_price == t.price
                    &&& k.low <= k.last_price <= k.high
                    &&& k.volume >= self.ticker(t.symbol).volume_24h
                    &&& k.volume == self.after(EventView::Trade(t), now).ticker(
                        t.symbol,
                    ).volume_24h
                    &&& k.timestamp == now
                }
            }),
    {
        self.ticker(t.symbol).lemma_after_trade_bounds(t.price, t.quantity, t.timestamp);
    }
}

/// The ticker rollup and depth throttle of a pipeline.
pub struct Aggregator {
    last_depth: StringHashMap<DepthEvent>,
    last_depth_emit: StringHashMap<i64>,
    depth_interval_ms: i64,
    ticker_state: StringHashMap<TickerState>,
}

impl View for Aggregator {
    type V = AggregatorState;

    closed spec fn view(&self) -> AggregatorState {
        AggregatorState {
            tickers: self.ticker_state@,
            last_depth: Map::new(
                |symbol: Seq<char>| self.last_depth@.contains_key(symbol),
                |symbol: Seq<char>| self.last_depth@[symbol]@,
            ),
            last_depth_emit: self.last_depth_emit@,
            depth_interval_ms: self.depth_interval_ms,
        }
    }
}

impl Aggregator {
    /// An aggregator that remembers nothing and spaces depth by the default
    /// interval.
    pub fn new() -> (aggregator: Aggregator)
        ensures
            aggregator@ == AggregatorState::fresh(DEFAULT_DEPTH_INTERVAL_MS),
    {
        Self::with_depth_interval(DEFAULT_DEPTH_INTERVAL_MS)
    }

    /// An aggregator that remembers nothing and spaces depth by
    /// `depth_interval_ms`.
    pub fn with_depth_interval(depth_interval_ms: i64) -> (aggregator: Aggregator)
        ensures
            aggregator@ == AggregatorState::fresh(depth_interval_ms),
    {
        let aggregator = Aggregator {
            last_depth: StringHashMap::new(),
            last_depth_emit: StringHashMap::new(),
            depth_interval_ms,
            ticker_state: StringHashMap::new(),
        };
        proof {
            assert(aggregator@.last_depth =~= Map::<Seq<char>, DepthEventView>::empty());
        }
        aggregator
    }

    /// The summary kept for `symbol`, if it has traded.
    pub fn ticker_state(&self, symbol: &str) -> (state: Option<TickerState>)
        ensures
            state == if self@.tickers.contains_key(symbol@) {
                Some(self@.tickers[symbol@])
            } else {
                None
            },
    {
        match self.ticker_state.get(symbol) {
            Some(state) => Some(*state),
            None => None,
        }
    }

    /// The last depth received for `symbol`, emitted or not.
    pub fn latest_depth(&self, symbol: &str) -> (depth: Option<DepthEvent>)
        ensures
            match depth {
                Some(d) => self@.last_depth.contains_key(symbol@) && d@ == self@.last_depth[symbol@],
                None => !self@.last_depth.contains_key(symbol@),
            },
    {
        match self.last_depth.get(symbol) {
            Some(depth) => Some(depth.duplicate()),
            None => None,
        }
    }

    /// Rolls the trade `t` into the summary of its symbol.
    pub fn update_ticker_from_trade(&mut self, t: &TradeEvent)
        ensures
            final(self)@ == old(self)@.after_trade(t@),
    {
        let state = match self.ticker_state.get(t.symbol.as_str()) {
            Some(state) => *state,
            None => TickerState::new(),
        };
        let next = state.after_trade(t.price, t.quantity, t.timestamp);
        self.ticker_state.insert(t.symbol.clone(), next);
        proof {
            assert(self@.last_depth =~= old(self)@.last_depth);
        }
    }

    /// The ticker of the symbol of `t` as of `now`; none while the symbol
    /// has not traded.
    pub fn ticker_event_at(&self, t: &TradeEvent, now: i64) -> (ticker: Option<TickerEvent>)
        ensures
            match ticker {
                Some(e) => self@.tickers.contains_key(t.symbol@) && self@.tickers[t.symbol@].last_price
                    is Some && self@.tickers[t.symbol@].open_24h is Some && e@
                    == self@.tickers[t.symbol@].ticker(t.symbol@, now),
                None => !(self@.tickers.contains_key(t.symbol@)
                    && self@.tickers[t.symbol@].last_price is Some
                    && self@.tickers[t.symbol@].open_24h is Some),
            },
    {
        let state = match self.ticker_state.get(t.symbol.as_str()) {
            Some(state) => *state,
            None => {
                return None;
            },
        };
        let last = match state.last_price {
            Some(last) => last,
            None => {
                return None;
            },
        };
        let open = match state.open_24h {
            Some(open) => open,
            None => {
                return None;
            },
        };
        Some(
            TickerEvent {
                symbol: t.symbol.clone(),
                last_price: last,
                open,
                high: state.high_24h,
                low: state.low_24h,
                volume: state.volume_24h,
                price_change: (last as i128) - (open as i128),
                price_change_bps: relative_change(last, open),
                timestamp: now,
            },
        )
    }

    /// The ticker of the symbol of `t` as of the current time.
    pub fn build_ticker_event(&self, t: &TradeEvent) -> (ticker: Option<TickerEvent>)
        ensures
            match ticker {
                Some(e) => self@.tickers.contains_key(t.symbol@) && self@.tickers[t.symbol@].last_price
                    is Some && self@.tickers[t.symbol@].open_24h is Some && e@
                    == self@.tickers[t.symbol@].ticker(t.symbol@, e.timestamp),
                None => !(self@.tickers.contains_key(t.symbol@)
                    && self@.tickers[t.symbol@].last_price is Some
                    && self@.tickers[t.symbol@].open_24h is Some),
            },
    {
        let now: i64 = now_millis();
        self.ticker_event_at(t, now)
    }

    /// Processes `event` at time `now` and returns what is to be published,
    /// in order.
    pub fn process_at(&mut self, event: Event, now: i64) -> (out: Vec<Event>)
        ensures
            final(self)@ == old(self)@.after(event@, now),
            views(out@) == old(self)@.emitted(event@, now),
    {
        let mut out: Vec<Event> = Vec::new();
        match event {
            Event::Trade(t) => {
                self.update_ticker_from_trade(&t);
                let ticker = self.ticker_event_at(&t, now);
                out.push(Event::Trade(t));
                match ticker {
                    Some(ticker) => {
                        out.push(Event::Ticker(ticker));
                    },
                    None => {},
                }
                proof {
                    assert(views(out@) =~= old(self)@.emitted(event@, now));
                }
            },
            Event::Depth(depth) => {
                let last_emit: i64 = match self.last_depth_emit.get(depth.symbol.as_str()) {
                    Some(at) => *at,
                    None => 0,
                };
                self.last_depth.insert(depth.symbol.clone(), depth.duplicate());
                if (now as i128) - (last_emit as i128) >= (self.depth_interval_ms as i128) {
                    self.last_depth_emit.insert(depth.symbol.clone(), now);
                    out.push(Event::Depth(depth));
                }
                proof {
                    assert(self@.last_depth =~= old(self)@.after(event@, now).last_depth);
                    assert(views(out@) =~= old(self)@.emitted(event@, now));
                }
            },
            Event::OrderUpdate(update) => {
                out.push(Event::OrderUpdate(update));
                proof {
                    assert(views(out@) =~= old(self)@.emitted(event@, now));
                }
            },
            Event::Ticker(ticker) => {
                out.push(Event::Ticker(ticker));
                proof {
                    assert(views(out@) =~= old(self)@.emitted(event@, now));
                }
            },
        }
        out
    }

    /// Processes `event` at the current time and returns what is to be
    /// published, in order.
    pub fn process(&mut self, ev: Event) -> (out: Vec<Event>)
        ensures
            exists|now: i64|
                {
                    &&& final(self)@ == old(self)@.after(ev@, now)
                    &&& views(out@) == #[trigger] old(self)@.emitted(ev@, now)
                },
    {
        let now: i64 = now_millis();
        self.process_at(ev, now)
    }
}

} // verus!
