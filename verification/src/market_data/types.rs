//! The events that leave the pipeline.

use vstd::prelude::*;
use crate::protocol::{OrderId, Price, PriceLevel, Quantity, TradeId, UserId};

verus! {

/// A trade as the public sees it: without the parties.
#[derive(Clone, Debug, PartialEq, Eq)]
pub struct TradeEvent {
    pub trade_id: TradeId,
    pub symbol: String,
    pub price: Price,
    pub quantity: Quantity,
    pub timestamp: i64,
}

pub struct TradeEventView {
    pub trade_id: TradeId,
    pub symbol: Seq<char>,
    pub price: Price,
    pub quantity: Quantity,
    pub timestamp: i64,
}

impl View for TradeEvent {
    type V = TradeEventView;

    open spec fn view(&self) -> TradeEventView {
        TradeEventView {
            trade_id: self.trade_id,
            symbol: self.symbol@,
            price: self.price,
            quantity: self.quantity,
            timestamp: self.timestamp,
        }
    }
}

/// The top of a book at one moment.
#[derive(Clone, Debug, PartialEq, Eq)]
pub struct DepthEvent {
    pub symbol: String,
    pub bids: Vec<PriceLevel>,
    pub asks: Vec<PriceLevel>,
    pub timestamp: i64,
    pub last_price: Option<Price>,
}

pub struct DepthEventView {
    pub symbol: Seq<char>,
    pub bids: Seq<PriceLevel>,
    pub asks: Seq<PriceLevel>,
    pub timestamp: i64,
    pub last_price: Option<Price>,
}

impl View for DepthEvent {
    type V = DepthEventView;

    open spec fn view(&self) -> DepthEventView {
        DepthEventView {
            symbol: self.symbol@,
            bids: self.bids@,
            asks: self.asks@,
            timestamp: self.timestamp,
            last_price: self.last_price,
        }
    }
}

/// A copy of `levels`.
fn copy_levels(levels: &Vec<PriceLevel>) -> (copy: Vec<PriceLevel>)
    ensures
        copy@ == levels@,
{
    let mut copy: Vec<PriceLevel> = Vec::new();
    let mut i: usize = 0;
    while i < levels.len()
        invariant
            i <= levels@.len(),
            copy@ == levels@.take(i as int),
        decreases levels@.len() - i,
    {
        copy.push(levels[i]);
        proof {
            assert(levels@.take(i + 1) =~= levels@.take(i as int).push(levels@[i as int]));
        }
        i = i + 1;
    }
    proof {
        assert(levels@.take(i as int) =~= levels@);
    }
    copy
}

impl DepthEvent {
    /// A copy of the event.
    pub fn duplicate(&self) -> (copy: DepthEvent)
        ensures
            copy@ == self@,
    {
        DepthEvent {
            symbol: self.symbol.clone(),
            bids: copy_levels(&self.bids),
            asks: copy_levels(&self.asks),
            timestamp: self.timestamp,
            last_price: self.last_price,
        }
    }
}

/// The rolling summary of a symbol's trades. Prices are in ticks. The
/// relative change is in hundredths of a percent, rounded toward zero, and
/// absent when the opening price is zero.
#[derive(Clone, Debug, PartialEq, Eq)]
pub struct TickerEvent {
    pub symbol: String,
    pub last_price: Price,
    pub open: Price,
    pub high: Price,
    pub low: Price,
    pub volume: Quantity,
    pub price_change: i128,
    pub price_change_bps: Option<i128>,
    pub timestamp: i64,
}

pub struct TickerEventView {
    pub symbol: Seq<char>,
    pub last_price: Price,
    pub open: Price,
    pub high: Price,
    pub low: Price,
    pub volume: Quantity,
    pub price_change: i128,
    pub price_change_bps: Option<i128>,
    pub timestamp: i64,
}

impl View for TickerEvent {
    type V = TickerEventView;

    open spec fn view(&self) -> TickerEventView {
        TickerEventView {
            symbol: self.symbol@,
            last_price: self.last_price,
            open: self.open,
            high: self.high,
            low: self.low,
            volume: self.volume,
            price_change: self.price_change,
            price_change_bps: self.price_change_bps,
            timestamp: self.timestamp,
        }
    }
}

/// What one user is told of one of their orders.
#[derive(Clone, Debug, PartialEq, Eq)]
pub enum UserOrderUpdateEvent {
    Ack { order_id: OrderId, user_id: UserId, symbol: String, timestamp: i64 },
    Fill {
        order_id: OrderId,
        user_id: UserId,
        symbol: String,
        filled_quantity: Quantity,
        filled_price: Price,
        remaining_quantity: Quantity,
        timestamp: i64,
    },
    Reject {
        order_id: OrderId,
        user_id: UserId,
        symbol: String,
        reason: String,
        message: String,
        timestamp: i64,
    },
    Cancelled { order_id: OrderId, user_id: UserId, symbol: String, timestamp: i64 },
}

pub enum UserOrderUpdateView {
    Ack { order_id: OrderId, user_id: UserId, symbol: Seq<char>, timestamp: i64 },
    Fill {
        order_id: OrderId,
        user_id: UserId,
        symbol: Seq<char>,
        filled_quantity: Quantity,
        filled_price: Price,
        remaining_quantity: Quantity,
        timestamp: i64,
    },
    Reject {
        order_id: OrderId,
        user_id: UserId,
        symbol: Seq<char>,
        reason: Seq<char>,
        message: Seq<char>,
        timestamp: i64,
    },
    Cancelled { order_id: OrderId, user_id: UserId, symbol: Seq<char>, timestamp: i64 },
}

impl UserOrderUpdateView {
    pub open spec fn user_id(self) -> UserId {
        match self {
            UserOrderUpdateView::Ack { user_id, .. } => user_id,
            UserOrderUpdateView::Fill { user_id, .. } => user_id,
            UserOrderUpdateView::Reject { user_id, .. } => user_id,
            UserOrderUpdateView::Cancelled { user_id, .. } => user_id,
        }
    }

    pub open spec fn timestamp(self) -> i64 {
        match self {
            UserOrderUpdateView::Ack { timestamp, .. } => timestamp,
            UserOrderUpdateView::Fill { timestamp, .. } => timestamp,
            UserOrderUpdateView::Reject { timestamp, .. } => timestamp,
            UserOrderUpdateView::Cancelled { timestamp, .. } => timestamp,
        }
    }
}

impl View for UserOrderUpdateEvent {
    type V = UserOrderUpdateView;

    open spec fn view(&self) -> UserOrderUpdateView {
        match *self {
            UserOrderUpdateEvent::Ack { order_id, user_id, symbol, timestamp } => {
                UserOrderUpdateView::Ack { order_id, user_id, symbol: symbol@, timestamp }
            },
            UserOrderUpdateEvent::Fill {
                order_id,
                user_id,
                symbol,
                filled_quantity,
                filled_price,
                remaining_quantity,
                timestamp,
            } => UserOrderUpdateView::Fill {
                order_id,
                user_id,
                symbol: symbol@,
                filled_quantity,
                filled_price,
                remaining_quantity,
                timestamp,
            },
            UserOrderUpdateEvent::Reject {
                order_id,
                user_id,
                symbol,
                reason,
                message,
                timestamp,
            } => UserOrderUpdateView::Reject {
                order_id,
                user_id,
                symbol: symbol@,
                reason: reason@,
                message: message@,
                timestamp,
            },
            UserOrderUpdateEvent::Cancelled { order_id, user_id, symbol, timestamp } => {
                UserOrderUpdateView::Cancelled { order_id, user_id, symbol: symbol@, timestamp }
            },
        }
    }
}

/// An event on its way to the publishers. Trades, depth and tickers go to
/// everyone; order updates go to the user they concern.
#[derive(Clone, Debug, PartialEq, Eq)]
pub enum Event {
    Trade(TradeEvent),
    Depth(DepthEvent),
    Ticker(TickerEvent),
    OrderUpdate(UserOrderUpdateEvent),
}

pub enum EventView {
    Trade(TradeEventView),
    Depth(DepthEventView),
    Ticker(TickerEventView),
    OrderUpdate(UserOrderUpdateView),
}

impl EventView {
    pub open spec fn is_public(self) -> bool {
        !(self is OrderUpdate)
    }

    /// The user a private event is for.
    pub open spec fn user_id(self) -> Option<UserId> {
        match self {
            EventView::OrderUpdate(update) => Some(update.user_id()),
            _ => None,
        }
    }
}

impl View for Event {
    type V = EventView;

    open spec fn view(&self) -> EventView {
        match *self {
            Event::Trade(e) => EventView::Trade(e@),
            Event::Depth(e) => EventView::Depth(e@),
            Event::Ticker(e) => EventView::Ticker(e@),
            Event::OrderUpdate(e) => EventView::OrderUpdate(e@),
        }
    }
}

/// The views of a run of events, in order.
pub open spec fn views(events: Seq<Event>) -> Seq<EventView> {
    Seq::new(events.len(), |i: int| events[i]@)
}

impl Event {
    /// Whether the event goes to the public stream of its symbol.
    pub fn is_public(&self) -> (public: bool)
        ensures
            public == self@.is_public(),
    {
        match self {
            Event::OrderUpdate(_) => false,
            _ => true,
        }
    }

    /// The user a private event is for; none for a public event.
    pub fn user_id(&self) -> (user: Option<UserId>)
        ensures
            user == self@.user_id(),
    {
        match self {
            Event::OrderUpdate(update) => match update {
                UserOrderUpdateEvent::Ack { user_id, .. } => Some(*user_id),
                UserOrderUpdateEvent::Fill { user_id, .. } => Some(*user_id),
                UserOrderUpdateEvent::Reject { user_id, .. } => Some(*user_id),
                UserOrderUpdateEvent::Cancelled { user_id, .. } => Some(*user_id),
            },
            _ => None,
        }
    }
}

} // verus!
