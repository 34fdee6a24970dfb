//! Where the pipeline hands its events.

use vstd::prelude::*;
use crate::market_data::types::{views, Event, EventView};

verus! {

/// What a publisher has been handed, in order.
pub type Handed = Seq<EventView>;

/// A destination for stream events. What becomes of an event after it has
/// been handed over, delivery and failure included, is the publisher's own
/// business; nothing is reported back. A publisher that is shared between
/// workers guards its own state.
///
/// `published` is a record for proofs and is never called. Of a publisher
/// that is not verified, the two contracts are taken on trust; such a
/// publisher gives `published` a body that is never run.
pub trait Publisher {
    /// Everything this publisher has been handed, in order.
    spec fn published(&self) -> Handed;

    /// Hands over one event.
    fn publish(&mut self, event: &Event)
        ensures
            final(self).published() == old(self).published().push(event@),
    ;

    /// Hands over a run of events, in order.
    fn publish_batch(&mut self, events: Vec<Event>)
        ensures
            final(self).published() == old(self).published() + views(events@),
    ;
}

/// A publisher that keeps what it is handed.
pub struct MemoryPublisher {
    events: Vec<Event>,
}

impl MemoryPublisher {
    /// Keeps a copy of `event` after what it has already.
    pub fn keep(&mut self, event: &Event)
        ensures
            final(self).published() == old(self).published().push(event@),
    {
        let copy = copy_event(event);
        self.events.push(copy);
        proof {
            assert(views(self.events@) =~= views(old(self).events@).push(event@));
        }
    }

    /// Keeps `events`, in order, after what it has already.
    pub fn keep_all(&mut self, events: Vec<Event>)
        ensures
            final(self).published() == old(self).published() + views(events@),
    {
        let mut events = events;
        let ghost handed = events@;
        self.events.append(&mut events);
        proof {
            assert(views(self.events@) =~= views(old(self).events@) + views(handed));
        }
    }

    pub fn new() -> (sink: MemoryPublisher)
        ensures
            sink.published() == Seq::<EventView>::empty(),
    {
        let sink = MemoryPublisher { events: Vec::new() };
        proof {
            assert(views(sink.events@) =~= Seq::<EventView>::empty());
        }
        sink
    }

    /// How many events have been handed over.
    pub fn count(&self) -> (count: usize)
        ensures
            count == self.published().len(),
    {
        self.events.len()
    }

    /// The events handed over so far, in order.
    pub fn events(&self) -> (events: &Vec<Event>)
        ensures
            views(events@) == self.published(),
    {
        &self.events
    }

    /// Takes out what has been handed over so far and starts afresh.
    pub fn drain(&mut self) -> (events: Vec<Event>)
        ensures
            views(events@) == old(self).published(),
            final(self).published() == Seq::<EventView>::empty(),
    {
        let mut taken: Vec<Event> = Vec::new();
        std::mem::swap(&mut self.events, &mut taken);
        proof {
            assert(views(self.events@) =~= Seq::<EventView>::empty());
        }
        taken
    }
}

impl Publisher for MemoryPublisher {
    closed spec fn published(&self) -> Handed {
        views(self.events@)
    }

    /// Keeps a copy of `event` after what it has already.
    fn publish(&mut self, event: &Event) {
        self.keep(event);
    }

    /// Keeps `events`, in order, after what it has already.
    fn publish_batch(&mut self, events: Vec<Event>) {
        self.keep_all(events);
    }
}

/// A copy of `event`.
pub fn copy_event(event: &Event) -> (copy: Event)
    ensures
        copy@ == event@,
{
    match event {
        Event::Trade(t) => Event::Trade(
            crate::market_data::types::TradeEvent {
                trade_id: t.trade_id,
                symbol: t.symbol.clone(),
                price: t.price,
                quantity: t.quantity,
                timestamp: t.timestamp,
            },
        ),
        Event::Depth(d) => Event::Depth(d.duplicate()),
        Event::Ticker(t) => Event::Ticker(
            crate::market_data::types::TickerEvent {
                symbol: t.symbol.clone(),
                last_price: t.last_price,
                open: t.open,
                high: t.high,
                low: t.low,
                volume: t.volume,
                price_change: t.price_change,
                price_change_bps: t.price_change_bps,
                timestamp: t.timestamp,
            },
        ),
        Event::OrderUpdate(u) => Event::OrderUpdate(copy_update(u)),
    }
}

fn copy_update(update: &crate::market_data::types::UserOrderUpdateEvent) -> (copy:
    crate::market_data::types::UserOrderUpdateEvent)
    ensures
        copy@ == update@,
{
    match update {
        crate::market_data::types::UserOrderUpdateEvent::Ack {
            order_id,
            user_id,
            symbol,
            timestamp,
        } => crate::market_data::types::UserOrderUpdateEvent::Ack {
            order_id: *order_id,
            user_id: *user_id,
            symbol: symbol.clone(),
            timestamp: *timestamp,
        },
        crate::market_data::types::UserOrderUpdateEvent::Fill {
            order_id,
            user_id,
            symbol,
            filled_quantity,
            filled_price,
            remaining_quantity,
            timestamp,
        } => crate::market_data::types::UserOrderUpdateEvent::Fill {
            order_id: *order_id,
            user_id: *user_id,
            symbol: symbol.clone(),
            filled_quantity: *filled_quantity,
            filled_price: *filled_price,
            remaining_quantity: *remaining_quantity,
            timestamp: *timestamp,
        },
        crate::market_data::types::UserOrderUpdateEvent::Reject {
            order_id,
            user_id,
            symbol,
            reason,
            message,
            timestamp,
        } => crate::market_data::types::UserOrderUpdateEvent::Reject {
            order_id: *order_id,
            user_id: *user_id,
            symbol: symbol.clone(),
            reason: reason.clone(),
            message: message.clone(),
            timestamp: *timestamp,
        },
        crate::market_data::types::UserOrderUpdateEvent::Cancelled {
            order_id,
            user_id,
            symbol,
            timestamp,
        } => crate::market_data::types::UserOrderUpdateEvent::Cancelled {
            order_id: *order_id,
            user_id: *user_id,
            symbol: symbol.clone(),
            timestamp: *timestamp,
        },
    }
}

} // verus!
