//! From engine events to stream events.

use vstd::prelude::*;
use crate::clock::now_millis;
use crate::market_data::types::{
    DepthEvent, DepthEventView, Event as WsEvent, EventView, TradeEvent, TradeEventView,
    UserOrderUpdateEvent, UserOrderUpdateView,
};
use crate::protocol::{
    BookUpdate, Event as EngineEvent, Fill, OrderAck, OrderCancelled, OrderReject, Trade,
};

verus! {

/// A trade without its parties.
pub open spec fn trade_event(trade: Trade) -> EventView {
    EventView::Trade(
        TradeEventView {
            trade_id: trade.trade_id,
            symbol: trade.symbol@,
            price: trade.price,
            quantity: trade.quantity,
            timestamp: trade.timestamp,
        },
    )
}

/// A book update as depth, stamped `now`.
pub open spec fn depth_event(update: BookUpdate, now: i64) -> EventView {
    EventView::Depth(
        DepthEventView {
            symbol: update.symbol@,
            bids: update.bids@,
            asks: update.asks@,
            timestamp: now,
            last_price: update.last_price,
        },
    )
}

/// A fill as an update for its user, stamped `now`. The side is not passed
/// on.
pub open spec fn fill_event(fill: Fill, now: i64) -> EventView {
    EventView::OrderUpdate(
        UserOrderUpdateView::Fill {
            order_id: fill.order_id,
            user_id: fill.user_id,
            symbol: fill.symbol@,
            filled_quantity: fill.filled_quantity,
            filled_price: fill.filled_price,
            remaining_quantity: fill.remaining_quantity,
            timestamp: now,
        },
    )
}

pub open spec fn ack_event(ack: OrderAck, now: i64) -> EventView {
    EventView::OrderUpdate(
        UserOrderUpdateView::Ack {
            order_id: ack.order_id,
            user_id: ack.user_id,
            symbol: ack.symbol@,
            timestamp: now,
        },
    )
}

/// A reject as an update for its user, stamped `now`; the reason goes by
/// its wire name.
pub open spec fn reject_event(reject: OrderReject, now: i64) -> EventView {
    EventView::OrderUpdate(
        UserOrderUpdateView::Reject {
            order_id: reject.order_id,
            user_id: reject.user_id,
            symbol: reject.symbol@,
            reason: reject.reason.name(),
            message: reject.message@,
            timestamp: now,
        },
    )
}

/// A cancellation as an update for its user, stamped `now`. The reason is
/// not passed on.
pub open spec fn cancelled_event(cancelled: OrderCancelled, now: i64) -> EventView {
    EventView::OrderUpdate(
        UserOrderUpdateView::Cancelled {
            order_id: cancelled.order_id,
            user_id: cancelled.user_id,
            symbol: cancelled.symbol@,
            timestamp: now,
        },
    )
}

/// The stream event for an engine event that is handled at time `now`. A
/// trade keeps its own time; every other event is stamped `now`.
pub open spec fn transformed(event: EngineEvent, now: i64) -> EventView {
    match event {
        EngineEvent::Trade(trade) => trade_event(trade),
        EngineEvent::BookUpdate(update) => depth_event(update, now),
        EngineEvent::Fill(fill) => fill_event(fill, now),
        EngineEvent::OrderAck(ack) => ack_event(ack, now),
        EngineEvent::OrderReject(reject) => reject_event(reject, now),
        EngineEvent::OrderCancelled(cancelled) => cancelled_event(cancelled, now),
    }
}

/// The time an event carries.
pub open spec fn stamp(event: EventView) -> i64 {
    match event {
        EventView::Trade(e) => e.timestamp,
        EventView::Depth(e) => e.timestamp,
        EventView::Ticker(e) => e.timestamp,
        EventView::OrderUpdate(e) => e.timestamp(),
    }
}

/// The stateless map from engine events to stream events.
#[derive(Clone, Copy, Debug)]
pub struct Transformer;

impl Transformer {
    pub fn new() -> (transformer: Transformer) {
        Transformer
    }

    /// The stream event for `event`, stamped with the current time where a
    /// stamp is due.
    pub fn transform(&self, event: EngineEvent) -> (out: WsEvent)
        ensures
            out@ == transformed(event, stamp(out@)),
    {
        match event {
            EngineEvent::Trade(trade) => self.transform_trade(trade),
            EngineEvent::BookUpdate(update) => self.transform_depth(update),
            EngineEvent::Fill(fill) => self.transform_fill(fill),
            EngineEvent::OrderAck(ack) => self.transform_order_ack(ack),
            EngineEvent::OrderReject(reject) => self.transform_order_reject(reject),
            EngineEvent::OrderCancelled(cancelled) => self.transform_order_cancelled(cancelled),
        }
    }

    /// The stream event for `event` when it is handled at time `now`.
    pub fn transform_at(&self, event: EngineEvent, now: i64) -> (out: WsEvent)
        ensures
            out@ == transformed(event, now),
    {
        match event {
            EngineEvent::Trade(trade) => self.transform_trade(trade),
            EngineEvent::BookUpdate(update) => depth_at(update, now),
            EngineEvent::Fill(fill) => fill_at(fill, now),
            EngineEvent::OrderAck(ack) => ack_at(ack, now),
            EngineEvent::OrderReject(reject) => reject_at(reject, now),
            EngineEvent::OrderCancelled(cancelled) => cancelled_at(cancelled, now),
        }
    }

    pub fn transform_trade(&self, trade: Trade) -> (out: WsEvent)
        ensures
            out@ == trade_event(trade),
    {
        WsEvent::Trade(
            TradeEvent {
                trade_id: trade.trade_id,
                symbol: trade.symbol,
                price: trade.price,
                quantity: trade.quantity,
                timestamp: trade.timestamp,
            },
        )
    }

    pub fn transform_depth(&self, book_update: BookUpdate) -> (out: WsEvent)
        ensures
            out@ == depth_event(book_update, stamp(out@)),
    {
        let now: i64 = now_millis();
        depth_at(book_update, now)
    }

    pub fn transform_fill(&self, fill: Fill) -> (out: WsEvent)
        ensures
            out@ == fill_event(fill, stamp(out@)),
    {
        let now: i64 = now_millis();
        fill_at(fill, now)
    }

    pub fn transform_order_ack(&self, order_ack: OrderAck) -> (out: WsEvent)
        ensures
            out@ == ack_event(order_ack, stamp(out@)),
    {
        let now: i64 = now_millis();
        ack_at(order_ack, now)
    }

    pub fn transform_order_reject(&self, order_reject: OrderReject) -> (out: WsEvent)
        ensures
            out@ == reject_event(order_reject, stamp(out@)),
    {
        let now: i64 = now_millis();
        reject_at(order_reject, now)
    }

    pub fn transform_order_cancelled(&self, order_cancelled: OrderCancelled) -> (out: WsEvent)
        ensures
            out@ == cancelled_event(order_cancelled, stamp(out@)),
    {
        let now: i64 = now_millis();
        cancelled_at(order_cancelled, now)
    }
}

fn depth_at(update: BookUpdate, now: i64) -> (out: WsEvent)
    ensures
        out@ == depth_event(update, now),
{
    WsEvent::Depth(
        DepthEvent {
            symbol: update.symbol,
            bids: update.bids,
            asks: update.asks,
            last_price: update.last_price,
            timestamp: now,
        },
    )
}

fn fill_at(fill: Fill, now: i64) -> (out: WsEvent)
    ensures
        out@ == fill_event(fill, now),
{
    WsEvent::OrderUpdate(
        UserOrderUpdateEvent::Fill {
            order_id: fill.order_id,
            user_id: fill.user_id,
            symbol: fill.symbol,
            filled_quantity: fill.filled_quantity,
            filled_price: fill.filled_price,
            remaining_quantity: fill.remaining_quantity,
            timestamp: now,
        },
    )
}

fn ack_at(ack: OrderAck, now: i64) -> (out: WsEvent)
    ensures
        out@ == ack_event(ack, now),
{
    WsEvent::OrderUpdate(
        UserOrderUpdateEvent::Ack {
            order_id: ack.order_id,
            user_id: ack.user_id,
            symbol: ack.symbol,
            timestamp: now,
        },
    )
}

fn reject_at(reject: OrderReject, now: i64) -> (out: WsEvent)
    ensures
        out@ == reject_event(reject, now),
{
    WsEvent::OrderUpdate(
        UserOrderUpdateEvent::Reject {
            order_id: reject.order_id,
            user_id: reject.user_id,
            reason: reject.reason.to_string(),
            message: reject.message,
            timestamp: now,
            symbol: reject.symbol,
        },
    )
}

fn cancelled_at(cancelled: OrderCancelled, now: i64) -> (out: WsEvent)
    ensures
        out@ == cancelled_event(cancelled, now),
{
    WsEvent::OrderUpdate(
        UserOrderUpdateEvent::Cancelled {
            order_id: cancelled.order_id,
            user_id: cancelled.user_id,
            symbol: cancelled.symbol,
            timestamp: now,
        },
    )
}

} // verus!
