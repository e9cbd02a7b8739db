//! The subject's side: summarising raw events into periodic updates, in
//! bounded memory.
use vstd::prelude::*;
use std::collections::HashMap;
use crate::resources::{PollOp, Resource, ResourceUpdate, Stats};

verus! {

broadcast use vstd::std_specs::hash::group_hash_axioms;

/// One observable fact about a resource.
#[derive(Clone, Debug, PartialEq)]
pub enum Event {
    /// A resource was created, with this static data.
    ResourceCreated(Resource),
    /// The stats of the resource with this identifier are now these.
    StatsChanged(u64, Stats),
    /// A poll operation completed.
    PollOpCompleted(PollOp),
}

/// What an [`Aggregator`] holds.
pub struct AggregatorView {
    /// How many events the buffer takes.
    pub capacity: usize,
    /// The events buffered since the last update, in the order they came.
    pub pending: Seq<Event>,
    /// The events turned away since the last update.
    pub dropped: u64,
}

/// The resources that the events in `events` created, in order.
pub open spec fn created(events: Seq<Event>) -> Seq<Resource>
    decreases events.len(),
{
    if events.len() == 0 {
        Seq::empty()
    } else {
        match events.last() {
            Event::ResourceCreated(r) => created(events.drop_last()).push(r),
            _ => created(events.drop_last()),
        }
    }
}

/// The poll operations that the events in `events` completed, in order.
pub open spec fn completed(events: Seq<Event>) -> Seq<PollOp>
    decreases events.len(),
{
    if events.len() == 0 {
        Seq::empty()
    } else {
        match events.last() {
            Event::PollOpCompleted(p) => completed(events.drop_last()).push(p),
            _ => completed(events.drop_last()),
        }
    }
}

/// For each resource whose stats changed in `events`, its stats after the
/// last of these changes.
pub open spec fn latest_stats(events: Seq<Event>) -> Map<u64, Stats>
    decreases events.len(),
{
    if events.len() == 0 {
        Map::empty()
    } else {
        match events.last() {
            Event::StatsChanged(id, s) => latest_stats(events.drop_last()).insert(id, s),
            _ => latest_stats(events.drop_last()),
        }
    }
}

/// What the aggregator holds after `event` was offered to it: the event
/// at the end of the buffer if there was room, and else one more event
/// counted as dropped. The count stops at the largest number it can hold.
pub open spec fn offer(view: AggregatorView, event: Event) -> AggregatorView {
    if view.pending.len() < view.capacity {
        AggregatorView {
            capacity: view.capacity,
            pending: view.pending.push(event),
            dropped: view.dropped,
        }
    } else {
        AggregatorView {
            capacity: view.capacity,
            pending: view.pending,
            dropped: if view.dropped < u64::MAX {
                (view.dropped + 1) as u64
            } else {
                view.dropped
            },
        }
    }
}

impl Event {
    /// Whether the event changes the stats of resource `id`.
    pub open spec fn changes(self, id: u64) -> bool {
        match self {
            Event::StatsChanged(k, _) => k == id,
            _ => false,
        }
    }

    /// The stats that the event brings, if it changes stats.
    pub open spec fn stats(self) -> Option<Stats> {
        match self {
            Event::StatsChanged(_, s) => Some(s),
            _ => None,
        }
    }
}

/// What the aggregator holds after the events `events` were offered to it,
/// in order.
pub open spec fn offer_all(view: AggregatorView, events: Seq<Event>) -> AggregatorView
    decreases events.len(),
{
    if events.len() == 0 {
        view
    } else {
        offer(offer_all(view, events.drop_last()), events.last())
    }
}

/// Whether the event at `i` is the last in `events` that changes the stats
/// of resource `id`.
pub open spec fn last_change(events: Seq<Event>, id: u64, i: int) -> bool {
    &&& 0 <= i < events.len()
    &&& events[i].changes(id)
    &&& forall|j: int| i < j < events.len() ==> !(#[trigger] events[j]).changes(id)
}

/// The subject's summary of its raw events.
///
/// Events are buffered up to a fixed capacity. An event that finds the
/// buffer full is counted and discarded, so that the caller never waits. A
/// publish tick turns what was buffered into one update and starts afresh.
#[derive(Clone, Debug, PartialEq)]
pub struct Aggregator {
    capacity: usize,
    buffer: Vec<Event>,
    dropped: u64,
}

impl View for Aggregator {
    type V = AggregatorView;

    closed spec fn view(&self) -> AggregatorView {
        AggregatorView { capacity: self.capacity, pending: self.buffer@, dropped: self.dropped }
    }
}

impl Aggregator {
    /// Whether the buffer is within its capacity.
    pub open spec fn wf(&self) -> bool {
        self@.pending.len() <= self@.capacity
    }

    /// An aggregator with an empty buffer that takes `capacity` events.
    pub fn new(capacity: usize) -> (a: Aggregator)
        ensures
            a.wf(),
            a@ == (AggregatorView { capacity, pending: Seq::empty(), dropped: 0 }),
    {
        Aggregator { capacity, buffer: Vec::new(), dropped: 0 }
    }

    /// How many events the buffer takes.
    pub fn capacity(&self) -> (n: usize)
        ensures
            n == self@.capacity,
    {
        self.capacity
    }

    /// How many events are buffered.
    pub fn pending(&self) -> (n: usize)
        ensures
            n == self@.pending.len(),
    {
        self.buffer.len()
    }

    /// How many events were turned away since the last update.
    pub fn dropped(&self) -> (n: u64)
        ensures
            n == self@.dropped,
    {
        self.dropped
    }

    /// Whether nothing happened since the last update, so that the next
    /// update would be empty.
    pub fn is_idle(&self) -> (idle: bool)
        ensures
            idle == (self@.pending.len() == 0 && self@.dropped == 0),
    {
        self.buffer.len() == 0 && self.dropped == 0
    }

    /// Offers one event. It is buffered if there is room; if there is none,
    /// it is discarded and counted. Returns whether the event was buffered.
    pub fn record(&mut self, event: Event) -> (buffered: bool)
        requires
            old(self).wf(),
        ensures
            final(self).wf(),
            final(self)@ == offer(old(self)@, event),
            buffered == (old(self)@.pending.len() < old(self)@.capacity),
    {
        if self.buffer.len() < self.capacity {
            self.buffer.push(event);
            true
        } else {
            if self.dropped < u64::MAX {
                self.dropped = self.dropped + 1;
            }
            false
        }
    }

    /// Turns what was buffered into one update, and starts afresh.
    ///
    /// The update holds the resources created, in order; for each resource
    /// whose stats changed, the stats after the last change; the poll
    /// operations completed, in order; and the number of events turned
    /// away. With nothing buffered and nothing turned away the update is
    /// empty.
    pub fn publish(&mut self) -> (update: ResourceUpdate)
        requires
            old(self).wf(),
        ensures
            final(self).wf(),
            final(self)@ == (AggregatorView {
                capacity: old(self)@.capacity,
                pending: Seq::empty(),
                dropped: 0,
            }),
            update.new_resources@ == created(old(self)@.pending),
            update.stats_update@ == latest_stats(old(self)@.pending),
            update.new_poll_ops@ == completed(old(self)@.pending),
            update.dropped_events == old(self)@.dropped,
    {
        let mut events: Vec<Event> = Vec::new();
        std::mem::swap(&mut self.buffer, &mut events);
        let ghost all = events@;
        let mut new_resources: Vec<Resource> = Vec::new();
        let mut stats_update: HashMap<u64, Stats> = HashMap::new();
        let mut new_poll_ops: Vec<PollOp> = Vec::new();
        for event in it: events
            invariant
                it.seq() == all,
                new_resources@ == created(all.take(it.index())),
                stats_update@ == latest_stats(all.take(it.index())),
                new_poll_ops@ == completed(all.take(it.index())),
        {
            assert(all.take(it.index() + 1).drop_last() == all.take(it.index()));
            match event {
                Event::ResourceCreated(r) => {
                    new_resources.push(r);
                },
                Event::StatsChanged(id, s) => {
                    stats_update.insert(id, s);
                },
                Event::PollOpCompleted(p) => {
                    new_poll_ops.push(p);
                },
            }
        }
        assert(all.take(all.len() as int) == all);
        let dropped_events = self.dropped;
        self.dropped = 0;
        ResourceUpdate { new_resources, stats_update, new_poll_ops, dropped_events }
    }
}

/// The update carries stats for exactly the resources whose stats changed,
/// and for each of them the stats of its last change: earlier changes of
/// the same resource are superseded.
pub proof fn lemma_latest_stats(events: Seq<Event>, id: u64)
    ensures
        latest_stats(events).contains_key(id) <==> exists|i: int| last_change(events, id, i),
        forall|i: int|
            last_change(events, id, i) ==> events[i].stats() == Some(latest_stats(events)[id]),
    decreases events.len(),
{
    if events.len() > 0 {
        let front = events.drop_last();
        let n = events.len() - 1;
        lemma_latest_stats(front, id);
        if events[n].changes(id) {
            assert(last_change(events, id, n));
        } else {
            assert forall|i: int| last_change(events, id, i) <==> last_change(front, id, i) by {
                if last_change(events, id, i) {
                    assert(i < n);
                    assert(front[i] == events[i]);
                    assert forall|j: int| i < j < front.len() implies !(#[trigger] front[j]).changes(
                        id,
                    ) by {
                        assert(front[j] == events[j]);
                    }
                }
                if last_change(front, id, i) {
                    assert(front[i] == events[i]);
                    assert forall|j: int| i < j < events.len() implies !(#[trigger] events[j]).changes(
                        id,
                    ) by {
                        if j < n {
                            assert(front[j] == events[j]);
                        }
                    }
                }
            }
            if latest_stats(events).contains_key(id) {
                let i = choose|i: int| last_change(front, id, i);
                assert(last_change(events, id, i));
            }
            assert forall|i: int| last_change(events, id, i) implies events[i].stats() == Some(
                latest_stats(events)[id],
            ) by {
                assert(last_change(front, id, i));
                assert(front[i] == events[i]);
            }
        }
    }
}

/// Every event offered is accounted for: it is in the buffer or it was
/// counted as dropped, as long as the count has not reached the largest
/// number it can hold. The buffer never grows beyond its capacity.
pub proof fn lemma_offered_are_accounted(view: AggregatorView, events: Seq<Event>)
    requires
        view.pending.len() <= view.capacity,
    ensures
        offer_all(view, events).capacity == view.capacity,
        offer_all(view, events).pending.len() <= view.capacity,
        offer_all(view, events).dropped >= view.dropped,
        offer_all(view, events).dropped < u64::MAX ==> offer_all(view, events).pending.len()
            + offer_all(view, events).dropped == view.pending.len() + view.dropped + events.len(),
    decreases events.len(),
{
    if events.len() > 0 {
        lemma_offered_are_accounted(view, events.drop_last());
    }
}

/// Every created resource and every completed poll operation goes into the
/// update once: as many as there are such events.
pub proof fn lemma_sent_once(events: Seq<Event>)
    ensures
        created(events).len() + completed(events).len() + change_count(events) == events.len(),
    decreases events.len(),
{
    if events.len() > 0 {
        lemma_sent_once(events.drop_last());
    }
}

/// How many of the events change the stats of a resource.
pub open spec fn change_count(events: Seq<Event>) -> nat
    decreases events.len(),
{
    if events.len() == 0 {
        0
    } else {
        match events.last() {
            Event::StatsChanged(_, _) => change_count(events.drop_last()) + 1,
            _ => change_count(events.drop_last()),
        }
    }
}

} // verus!
