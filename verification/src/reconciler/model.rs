//! The observer's live view as a mathematical value, and how one update
//! changes it.
use vstd::prelude::*;
use crate::resources::{PollOp, Resource, ResourceUpdate, Stats};

verus! {

/// The bounds within which the observer keeps what it has seen.
#[derive(Clone, Copy, Debug, PartialEq, Eq)]
pub struct Limits {
    /// How many poll operations are kept for one resource; the oldest leave first.
    pub history: usize,
    /// How many poll operations of resources not yet announced are held
    /// back; the oldest expire first.
    pub orphans: usize,
    /// How many updates a resource stays in the view once its stats say that
    /// it was dropped.
    pub grace: u64,
}

/// Why an update was refused.
#[derive(Clone, Copy, Debug, PartialEq, Eq)]
pub enum ReconcileError {
    /// A new resource or a poll operation names no resource.
    MissingResourceId,
    /// A new resource carries an identifier that is in the view already, or
    /// that an earlier new resource of the same update carries.
    DuplicateResource(u64),
    /// Stats came for a resource that was never announced.
    UnknownResource(u64),
    /// The count of dropped events would no longer fit its counter.
    DroppedOverflow,
}

/// What the view holds of one resource.
pub struct ResourceStateView {
    /// The static data with which the resource was announced.
    pub resource: Resource,
    /// The stats that the latest update to mention the resource gave for it.
    pub stats: Option<Stats>,
    /// The most recent poll operations on the resource, oldest first.
    pub poll_ops: Seq<PollOp>,
    /// For a dropped resource, the number of updates applied since the one
    /// that gave it its latest stats.
    pub dead_for: u64,
}

impl ResourceStateView {
    /// A resource is dead once its latest stats carry a drop time.
    pub open spec fn is_dead(self) -> bool {
        self.stats is Some && self.stats->0.dropped_at is Some
    }

    /// The same resource with other stats, freshly set.
    pub open spec fn with_stats(self, stats: Stats) -> ResourceStateView {
        ResourceStateView {
            resource: self.resource,
            stats: Some(stats),
            poll_ops: self.poll_ops,
            dead_for: 0,
        }
    }

    /// The same resource with another poll history.
    pub open spec fn with_poll_ops(self, poll_ops: Seq<PollOp>) -> ResourceStateView {
        ResourceStateView {
            resource: self.resource,
            stats: self.stats,
            poll_ops,
            dead_for: self.dead_for,
        }
    }

    /// The same resource one update later.
    pub open spec fn aged(self) -> ResourceStateView {
        if self.is_dead() && self.dead_for < u64::MAX {
            ResourceStateView {
                resource: self.resource,
                stats: self.stats,
                poll_ops: self.poll_ops,
                dead_for: (self.dead_for + 1) as u64,
            }
        } else {
            self
        }
    }
}

/// The live view: every resource the observer knows, the poll operations it
/// holds back, and the events lost so far.
pub struct ReconcilerView {
    /// The known resources by identifier.
    pub resources: Map<u64, ResourceStateView>,
    /// Poll operations on resources that were not announced yet, oldest first.
    pub orphans: Seq<PollOp>,
    /// The events that the subject reported as dropped, over all updates applied.
    pub dropped_total: u64,
}

/// The view before any update.
pub open spec fn empty_view() -> ReconcilerView {
    ReconcilerView { resources: Map::empty(), orphans: Seq::empty(), dropped_total: 0 }
}

/// The last `n` items of `s`, or all of `s` if it has no more than `n`.
pub open spec fn newest<T>(s: Seq<T>, n: int) -> Seq<T> {
    if s.len() <= n {
        s
    } else {
        s.subrange(s.len() - n, s.len() as int)
    }
}

/// The poll operations among `ops` that name resource `id`, in order.
pub open spec fn ops_of(ops: Seq<PollOp>, id: u64) -> Seq<PollOp>
    decreases ops.len(),
{
    if ops.len() == 0 {
        Seq::empty()
    } else if ops.last().key() == Some(id) {
        ops_of(ops.drop_last(), id).push(ops.last())
    } else {
        ops_of(ops.drop_last(), id)
    }
}

/// The poll operations among `ops` that do not name resource `id`, in order.
pub open spec fn ops_not_of(ops: Seq<PollOp>, id: u64) -> Seq<PollOp>
    decreases ops.len(),
{
    if ops.len() == 0 {
        Seq::empty()
    } else if ops.last().key() == Some(id) {
        ops_not_of(ops.drop_last(), id)
    } else {
        ops_not_of(ops.drop_last(), id).push(ops.last())
    }
}

/// The identifiers that the resources in `rs` carry.
pub open spec fn new_ids(rs: Seq<Resource>) -> Set<u64> {
    Set::new(|id: u64| exists|j: int| 0 <= j < rs.len() && #[trigger] rs[j].key() == Some(id))
}

/// Whether the new resource at `i` cannot be taken in: it has no identifier,
/// or its identifier is known, or an earlier new resource carries it.
pub open spec fn bad_new(known: Set<u64>, rs: Seq<Resource>, i: int) -> bool {
    ||| rs[i].key() is None
    ||| known.contains(rs[i].key()->0)
    ||| exists|j: int| 0 <= j < i && #[trigger] rs[j].key() == rs[i].key()
}

/// Whether `i` is the first new resource that cannot be taken in.
pub open spec fn first_bad_new(known: Set<u64>, rs: Seq<Resource>, i: int) -> bool {
    &&& 0 <= i < rs.len()
    &&& bad_new(known, rs, i)
    &&& forall|j: int| 0 <= j < i ==> !bad_new(known, rs, j)
}

/// Whether the update brings stats for `id` although no resource `id` is
/// known or announced with it.
pub open spec fn stray_stats(known: Set<u64>, update: ResourceUpdate, id: u64) -> bool {
    &&& update.stats_update@.contains_key(id)
    &&& !known.contains(id)
    &&& !new_ids(update.new_resources@).contains(id)
}

/// Whether `id` is the least identifier with stray stats.
pub open spec fn least_stray_stats(known: Set<u64>, update: ResourceUpdate, id: u64) -> bool {
    &&& stray_stats(known, update, id)
    &&& forall|k: u64| stray_stats(known, update, k) ==> id <= k
}

/// Whether the view takes the update: every new resource carries an
/// identifier that is new, all stats are for resources known or announced
/// with them, every poll operation names a resource, and the counter of
/// dropped events has room.
pub open spec fn accepts(view: ReconcilerView, update: ResourceUpdate) -> bool {
    let known = view.resources.dom();
    &&& forall|i: int|
        0 <= i < update.new_resources@.len() ==> !bad_new(known, update.new_resources@, i)
    &&& forall|id: u64| !stray_stats(known, update, id)
    &&& forall|i: int|
        0 <= i < update.new_poll_ops@.len() ==> (#[trigger] update.new_poll_ops@[i]).key() is Some
    &&& view.dropped_total + update.dropped_events <= u64::MAX
}

/// Whether the view takes the update, and if not, why.
///
/// The new resources are looked at first, in their order; then the stats,
/// of which the least stray identifier is reported; then the poll
/// operations; and last the counter of dropped events.
pub open spec fn check(view: ReconcilerView, update: ResourceUpdate) -> Result<(), ReconcileError> {
    let known = view.resources.dom();
    let rs = update.new_resources@;
    let ops = update.new_poll_ops@;
    if exists|i: int| 0 <= i < rs.len() && bad_new(known, rs, i) {
        let i = choose|i: int| first_bad_new(known, rs, i);
        if rs[i].key() is None {
            Err(ReconcileError::MissingResourceId)
        } else {
            Err(ReconcileError::DuplicateResource(rs[i].key()->0))
        }
    } else if exists|id: u64| stray_stats(known, update, id) {
        Err(ReconcileError::UnknownResource(choose|id: u64| least_stray_stats(known, update, id)))
    } else if exists|i: int| 0 <= i < ops.len() && (#[trigger] ops[i]).key() is None {
        Err(ReconcileError::MissingResourceId)
    } else if view.dropped_total + update.dropped_events > u64::MAX {
        Err(ReconcileError::DroppedOverflow)
    } else {
        Ok(())
    }
}

/// The view after a new resource was taken in: it has no stats yet, and
/// the poll operations that were held back for it become its history.
pub open spec fn announce(limits: Limits, view: ReconcilerView, r: Resource) -> ReconcilerView {
    let id = r.key()->0;
    ReconcilerView {
        resources: view.resources.insert(
            id,
            ResourceStateView {
                resource: r,
                stats: None,
                poll_ops: newest(ops_of(view.orphans, id), limits.history as int),
                dead_for: 0,
            },
        ),
        orphans: ops_not_of(view.orphans, id),
        dropped_total: view.dropped_total,
    }
}

/// The view after the new resources `rs` were taken in, in order.
pub open spec fn announce_all(limits: Limits, view: ReconcilerView, rs: Seq<Resource>) -> ReconcilerView
    decreases rs.len(),
{
    if rs.len() == 0 {
        view
    } else {
        announce(limits, announce_all(limits, view, rs.drop_last()), rs.last())
    }
}

/// The view after the stats in `stats` replaced those of the resources they
/// are for. The stats of a resource are replaced as a whole.
pub open spec fn replace_stats(view: ReconcilerView, stats: Map<u64, Stats>) -> ReconcilerView {
    ReconcilerView {
        resources: Map::new(
            |id: u64| view.resources.contains_key(id),
            |id: u64|
                if stats.contains_key(id) {
                    view.resources[id].with_stats(stats[id])
                } else {
                    view.resources[id]
                },
        ),
        orphans: view.orphans,
        dropped_total: view.dropped_total,
    }
}

/// The view after one poll operation was recorded: at the end of its
/// resource's history, or, if the resource is not known, at the end of the
/// operations held back. Whichever it joins keeps its newest items only.
pub open spec fn record(limits: Limits, view: ReconcilerView, op: PollOp) -> ReconcilerView {
    let id = op.key()->0;
    if view.resources.contains_key(id) {
        let st = view.resources[id];
        ReconcilerView {
            resources: view.resources.insert(
                id,
                st.with_poll_ops(newest(st.poll_ops.push(op), limits.history as int)),
            ),
            orphans: view.orphans,
            dropped_total: view.dropped_total,
        }
    } else {
        ReconcilerView {
            resources: view.resources,
            orphans: newest(view.orphans.push(op), limits.orphans as int),
            dropped_total: view.dropped_total,
        }
    }
}

/// The view after the poll operations `ops` were recorded, in order.
pub open spec fn record_all(limits: Limits, view: ReconcilerView, ops: Seq<PollOp>) -> ReconcilerView
    decreases ops.len(),
{
    if ops.len() == 0 {
        view
    } else {
        record(limits, record_all(limits, view, ops.drop_last()), ops.last())
    }
}

/// The view after `n` more events were counted as dropped.
pub open spec fn count_dropped(view: ReconcilerView, n: u64) -> ReconcilerView {
    ReconcilerView {
        resources: view.resources,
        orphans: view.orphans,
        dropped_total: (view.dropped_total + n) as u64,
    }
}

/// Whether `st`, known as `child`, is an internal part of resource `parent`.
pub open spec fn is_part_of(st: ResourceStateView, child: u64, parent: u64) -> bool {
    &&& child != parent
    &&& st.resource.is_internal
    &&& st.resource.parent_key() == Some(parent)
}

/// Whether some resource in the view is an internal part of resource `id`.
pub open spec fn has_parts(resources: Map<u64, ResourceStateView>, id: u64) -> bool {
    exists|c: u64| #[trigger] resources.contains_key(c) && is_part_of(resources[c], c, id)
}

/// Whether resource `id` leaves the view now: it is dead, its time of grace
/// is over, and no resource in the view is an internal part of it.
pub open spec fn leaves(limits: Limits, resources: Map<u64, ResourceStateView>, id: u64) -> bool {
    &&& resources[id].is_dead()
    &&& resources[id].dead_for >= limits.grace
    &&& !has_parts(resources, id)
}

/// The view at the end of an update: the dead resources whose time is over
/// have left, and the other dead resources are one update older.
pub open spec fn sweep(limits: Limits, view: ReconcilerView) -> ReconcilerView {
    ReconcilerView {
        resources: Map::new(
            |id: u64| view.resources.contains_key(id) && !leaves(limits, view.resources, id),
            |id: u64| view.resources[id].aged(),
        ),
        orphans: view.orphans,
        dropped_total: view.dropped_total,
    }
}

/// The view after an update that it takes.
pub open spec fn step(limits: Limits, view: ReconcilerView, update: ResourceUpdate) -> ReconcilerView {
    let announced = announce_all(limits, view, update.new_resources@);
    let replaced = replace_stats(announced, update.stats_update@);
    let recorded = record_all(limits, replaced, update.new_poll_ops@);
    sweep(limits, count_dropped(recorded, update.dropped_events))
}

/// The view after an update: changed as [`step`] says if the view takes the
/// update, and unchanged if it refuses it.
pub open spec fn transition(limits: Limits, view: ReconcilerView, update: ResourceUpdate) -> ReconcilerView {
    if check(view, update) is Ok {
        step(limits, view, update)
    } else {
        view
    }
}

/// The view after the updates `updates` came in, in order, to a view that
/// was empty.
pub open spec fn replay(limits: Limits, updates: Seq<ResourceUpdate>) -> ReconcilerView
    decreases updates.len(),
{
    if updates.len() == 0 {
        empty_view()
    } else {
        transition(limits, replay(limits, updates.drop_last()), updates.last())
    }
}

/// The resources in the view that are not dead.
pub open spec fn active(view: ReconcilerView) -> Set<u64> {
    Set::new(|id: u64| view.resources.contains_key(id) && !view.resources[id].is_dead())
}

/// The resources in the view whose kind goes by the name `name`.
pub open spec fn of_kind(view: ReconcilerView, name: Seq<char>) -> Set<u64> {
    Set::new(
        |id: u64|
            view.resources.contains_key(id) && view.resources[id].resource.spec_kind_name() == Some(
                name,
            ),
    )
}

/// What holds of every view that the observer reaches.
pub open spec fn valid(limits: Limits, view: ReconcilerView) -> bool {
    &&& view.resources.dom().finite()
    &&& forall|id: u64| #[trigger]
        view.resources.contains_key(id) ==> {
            &&& view.resources[id].resource.key() == Some(id)
            &&& view.resources[id].poll_ops.len() <= limits.history
            &&& forall|i: int|
                0 <= i < view.resources[id].poll_ops.len() ==> (
                #[trigger] view.resources[id].poll_ops[i]).key() == Some(id)
        }
    &&& view.orphans.len() <= limits.orphans
    &&& forall|i: int|
        0 <= i < view.orphans.len() ==> {
            &&& (#[trigger] view.orphans[i]).key() is Some
            &&& !view.resources.contains_key(view.orphans[i].key()->0)
        }
}

} // verus!
