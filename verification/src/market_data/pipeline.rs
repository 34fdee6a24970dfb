//! The fan-out: one engine event in, stream events out to every publisher.

use vstd::prelude::*;
use crate::clock::now_millis;
use crate::market_data::aggregator::{Aggregator, AggregatorState, DEFAULT_DEPTH_INTERVAL_MS};
use crate::market_data::publisher::Publisher;
use crate::market_data::transformer::{transformed, Transformer};
use crate::market_data::types::{views, Event, EventView};
use crate::protocol::Event as EngineEvent;

verus! {

/// Owns a transformer, an aggregator and the publishers, in the order they
/// were registered.
pub struct MarketDataPipeline {
    transformer: Transformer,
    aggregator: Aggregator,
    publishers: Vec<Box<dyn Publisher>>,
}

impl MarketDataPipeline {
    pub closed spec fn aggregator_state(&self) -> AggregatorState {
        self.aggregator@
    }

    /// What each publisher has been handed, by place of registration.
    pub closed spec fn published(&self) -> Seq<Seq<EventView>> {
        Seq::new(self.publishers@.len(), |i: int| self.publishers@[i].published())
    }

    /// A pipeline over `publishers`, in the order given, with a fresh
    /// aggregator.
    pub fn new(publishers: Vec<Box<dyn Publisher>>) -> (pipeline: MarketDataPipeline)
        ensures
            pipeline.published() == Seq::new(
                publishers@.len(),
                |i: int| publishers@[i].published(),
            ),
            pipeline.aggregator_state() == AggregatorState::fresh(DEFAULT_DEPTH_INTERVAL_MS),
    {
        MarketDataPipeline { transformer: Transformer::new(), aggregator: Aggregator::new(), publishers }
    }

    /// How many publishers are registered.
    pub fn publisher_count(&self) -> (count: usize)
        ensures
            count == self.published().len(),
    {
        self.publishers.len()
    }

    /// Hands every event of `events` to every publisher: event by event,
    /// and for each event publisher by publisher in registration order.
    fn dispatch(&mut self, events: &Vec<Event>)
        ensures
            final(self).aggregator_state() == old(self).aggregator_state(),
            final(self).published().len() == old(self).published().len(),
            forall|i: int|
                0 <= i < old(self).published().len() ==> #[trigger] final(self).published()[i]
                    == old(self).published()[i] + views(events@),
    {
        let count: usize = self.publishers.len();
        let mut j: usize = 0;
        while j < events.len()
            invariant
                j <= events@.len(),
                count == self.publishers@.len(),
                count == old(self).publishers@.len(),
                self.aggregator == old(self).aggregator,
                forall|i: int|
                    0 <= i < count ==> (#[trigger] self.publishers@[i]).published() == old(
                        self,
                    ).publishers@[i].published() + views(events@.take(j as int)),
            decreases events@.len() - j,
        {
            let mut i: usize = 0;
            while i < count
                invariant
                    j < events@.len(),
                    i <= count,
                    count == self.publishers@.len(),
                    count == old(self).publishers@.len(),
                    self.aggregator == old(self).aggregator,
                    forall|k: int|
                        0 <= k < i ==> (#[trigger] self.publishers@[k]).published() == old(
                            self,
                        ).publishers@[k].published() + views(events@.take(j + 1)),
                    forall|k: int|
                        i <= k < count ==> (#[trigger] self.publishers@[k]).published() == old(
                            self,
                        ).publishers@[k].published() + views(events@.take(j as int)),
                decreases count - i,
            {
                proof {
                    assert(views(events@.take(j + 1)) =~= views(events@.take(j as int)).push(
                        events@[j as int]@,
                    ));
                    assert(old(self).publishers@[i as int].published() + views(
                        events@.take(j as int),
                    ).push(events@[j as int]@) =~= (old(self).publishers@[i as int].published()
                        + views(events@.take(j as int))).push(events@[j as int]@));
                }
                self.publishers[i].publish(&events[j]);
                i = i + 1;
            }
            j = j + 1;
        }
        proof {
            assert(events@.take(j as int) =~= events@);
        }
    }

    /// Takes one engine event at time `now` through the transformer and
    /// the aggregator, hands what comes out to every publisher, and returns
    /// it.
    pub fn process_at(&mut self, event: EngineEvent, now: i64) -> (out: Vec<Event>)
        ensures
            final(self).aggregator_state() == old(self).aggregator_state().after(
                transformed(event, now),
                now,
            ),
            views(out@) == old(self).aggregator_state().emitted(transformed(event, now), now),
            final(self).published().len() == old(self).published().len(),
            forall|i: int|
                0 <= i < old(self).published().len() ==> #[trigger] final(self).published()[i]
                    == old(self).published()[i] + views(out@),
    {
        let stream_event = self.transformer.transform_at(event, now);
        let out = self.aggregator.process_at(stream_event, now);
        self.dispatch(&out);
        out
    }

    /// Takes one engine event through the pipeline at the current time.
    pub fn process(&mut self, event: EngineEvent) -> (out: Vec<Event>)
        ensures
            final(self).published().len() == old(self).published().len(),
            forall|i: int|
                0 <= i < old(self).published().len() ==> #[trigger] final(self).published()[i]
                    == old(self).published()[i] + views(out@),
            exists|now: i64|
                {
                    &&& final(self).aggregator_state() == old(self).aggregator_state().after(
                        transformed(event, now),
                        now,
                    )
                    &&& views(out@) == #[trigger] old(self).aggregator_state().emitted(
                        transformed(event, now),
                        now,
                    )
                },
    {
        let now: i64 = now_millis();
        self.process_at(event, now)
    }
}

} // verus!
