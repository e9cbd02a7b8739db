//! What holds of the view over a whole session.
use vstd::prelude::*;
use crate::reconciler::lemmas::{
    lemma_announce_all, lemma_replace_stats_valid, lemma_step_valid,
    lemma_transition_valid,
};
use crate::reconciler::model::{
    Limits, ReconcilerView, accepts, announce_all, bad_new, check, count_dropped,
    empty_view, has_parts, is_part_of, leaves, new_ids, record, record_all, replace_stats, replay,
    step, sweep, transition, valid,
};
use crate::resources::{PollOp, Resource, ResourceUpdate};

verus! {

/// Whether `views` are the views that the observer passes through while the
/// updates `updates` come in: it starts from the empty view, and each update
/// leads from one view to the next.
pub open spec fn is_run(limits: Limits, updates: Seq<ResourceUpdate>, views: Seq<ReconcilerView>) -> bool {
    &&& views.len() == updates.len() + 1
    &&& views[0] == empty_view()
    &&& forall|i: int|
        0 <= i < updates.len() ==> #[trigger] views[i + 1] == transition(
            limits,
            views[i],
            updates[i],
        )
}

/// Whether the update at `k` is taken when the updates come in, in order, to
/// a view that was empty.
pub open spec fn taken(limits: Limits, updates: Seq<ResourceUpdate>, k: int) -> bool {
    check(replay(limits, updates.take(k)), updates[k]) is Ok
}

/// The events reported as dropped by those of the updates that are taken.
pub open spec fn dropped_sum(limits: Limits, updates: Seq<ResourceUpdate>) -> nat
    decreases updates.len(),
{
    if updates.len() == 0 {
        0
    } else if taken(limits, updates, updates.len() - 1) {
        dropped_sum(limits, updates.drop_last()) + updates.last().dropped_events as nat
    } else {
        dropped_sum(limits, updates.drop_last())
    }
}

/// The events that the updates report as dropped, all together.
pub open spec fn reported_sum(updates: Seq<ResourceUpdate>) -> nat
    decreases updates.len(),
{
    if updates.len() == 0 {
        0
    } else {
        reported_sum(updates.drop_last()) + updates.last().dropped_events as nat
    }
}

/// Whether every internal resource in the view that names a parent has that
/// parent in the view.
pub open spec fn parts_have_parents(view: ReconcilerView) -> bool {
    forall|c: u64| #[trigger]
        view.resources.contains_key(c) && view.resources[c].resource.is_internal
            && view.resources[c].resource.parent_key() is Some ==> view.resources.contains_key(
            view.resources[c].resource.parent_key()->0,
        )
}

/// Whether every internal resource that the update announces, and that names
/// a parent, comes after or together with that parent: the parent is in
/// the view, or the same update announces it.
pub open spec fn parents_come_first(view: ReconcilerView, update: ResourceUpdate) -> bool {
    forall|j: int|
        0 <= j < update.new_resources@.len() && (#[trigger] update.new_resources@[j]).is_internal
            && update.new_resources@[j].parent_key() is Some ==> {
            let p = update.new_resources@[j].parent_key()->0;
            view.resources.contains_key(p) || new_ids(update.new_resources@).contains(p)
        }
}

/// Every view that a session reaches is valid.
pub proof fn lemma_replay_valid(limits: Limits, updates: Seq<ResourceUpdate>)
    ensures
        valid(limits, replay(limits, updates)),
    decreases updates.len(),
{
    if updates.len() > 0 {
        lemma_replay_valid(limits, updates.drop_last());
        lemma_transition_valid(limits, replay(limits, updates.drop_last()), updates.last());
    }
}

/// Recording poll operations changes nothing of a resource but its history,
/// and neither adds nor removes a resource.
pub proof fn lemma_record_all_frame(limits: Limits, view: ReconcilerView, ops: Seq<PollOp>)
    ensures
        record_all(limits, view, ops).resources.dom() == view.resources.dom(),
        record_all(limits, view, ops).dropped_total == view.dropped_total,
        forall|id: u64| #[trigger]
            view.resources.contains_key(id) ==> {
                let before = view.resources[id];
                let after = record_all(limits, view, ops).resources[id];
                &&& after.resource == before.resource
                &&& after.stats == before.stats
                &&& after.dead_for == before.dead_for
            },
    decreases ops.len(),
{
    if ops.len() > 0 {
        lemma_record_all_frame(limits, view, ops.drop_last());
        let mid = record_all(limits, view, ops.drop_last());
        assert(record(limits, mid, ops.last()).resources.dom() =~= mid.resources.dom());
    }
}

/// Taking in new resources leaves the resources alone that are not among
/// them, and holds each new one as it was announced, without stats.
pub proof fn lemma_announce_all_frame(limits: Limits, view: ReconcilerView, rs: Seq<Resource>)
    requires
        forall|i: int| 0 <= i < rs.len() ==> (#[trigger] rs[i]).key() is Some,
    ensures
        announce_all(limits, view, rs).resources.dom() == view.resources.dom().union(new_ids(rs)),
        forall|id: u64| #[trigger]
            view.resources.contains_key(id) && !new_ids(rs).contains(id) ==> announce_all(
                limits,
                view,
                rs,
            ).resources[id] == view.resources[id],
        forall|id: u64| #[trigger]
            new_ids(rs).contains(id) ==> {
                let after = announce_all(limits, view, rs).resources[id];
                &&& after.stats is None
                &&& exists|j: int| 0 <= j < rs.len() && #[trigger] rs[j].key() == Some(id) && after.resource == rs[j]
            },
    decreases rs.len(),
{
    if rs.len() == 0 {
        assert(view.resources.dom() =~= view.resources.dom().union(new_ids(rs)));
    } else {
        let front = rs.drop_last();
        lemma_announce_all_frame(limits, view, front);
        let mid = announce_all(limits, view, front);
        let after = announce_all(limits, view, rs);
        let last_id = rs.last().key()->0;
        assert forall|x: u64| new_ids(rs).contains(x) <==> (new_ids(front).contains(x) || x
            == last_id) by {
            if new_ids(rs).contains(x) {
                let j = choose|j: int| 0 <= j < rs.len() && #[trigger] rs[j].key() == Some(x);
                if j < front.len() {
                    assert(front[j].key() == Some(x));
                }
            }
            if new_ids(front).contains(x) {
                let j = choose|j: int| 0 <= j < front.len() && #[trigger] front[j].key() == Some(x);
                assert(rs[j].key() == Some(x));
            }
            if x == last_id {
                assert(rs[rs.len() - 1].key() == Some(x));
            }
        }
        assert(after.resources.dom() =~= view.resources.dom().union(new_ids(rs)));
        assert forall|id: u64| #[trigger] new_ids(rs).contains(id) implies {
            let st = after.resources[id];
            &&& st.stats is None
            &&& exists|j: int| 0 <= j < rs.len() && #[trigger] rs[j].key() == Some(id) && st.resource == rs[j]
        } by {
            if id == last_id {
                assert(rs[rs.len() - 1].key() == Some(id));
            } else {
                assert(new_ids(front).contains(id));
                let j = choose|j: int|
                    0 <= j < front.len() && #[trigger] front[j].key() == Some(id)
                        && mid.resources[id].resource == front[j];
                assert(rs[j].key() == Some(id));
            }
        }
    }
}

/// Every resource in the view was announced: some update of the session
/// carried it among its new resources. Stats alone bring no resource into
/// the view.
pub proof fn lemma_known_were_announced(limits: Limits, updates: Seq<ResourceUpdate>, id: u64)
    requires
        replay(limits, updates).resources.contains_key(id),
    ensures
        exists|k: int, j: int|
            0 <= k < updates.len() && 0 <= j < updates[k].new_resources@.len()
                && #[trigger] updates[k].new_resources@[j].key() == Some(id),
    decreases updates.len(),
{
    if updates.len() > 0 {
        let front = updates.drop_last();
        let before = replay(limits, front);
        let u = updates.last();
        lemma_replay_valid(limits, front);
        if check(before, u) is Ok {
            lemma_step_valid(limits, before, u);
        }
        if before.resources.contains_key(id) {
            lemma_known_were_announced(limits, front, id);
            let (k, j) = choose|k: int, j: int|
                0 <= k < front.len() && 0 <= j < front[k].new_resources@.len()
                    && #[trigger] front[k].new_resources@[j].key() == Some(id);
            assert(updates[k].new_resources@[j].key() == Some(id));
        } else {
            assert(new_ids(u.new_resources@).contains(id));
            let j = choose|j: int|
                0 <= j < u.new_resources@.len() && #[trigger] u.new_resources@[j].key() == Some(id);
            assert(updates[updates.len() - 1].new_resources@[j].key() == Some(id));
        }
    }
}

/// The same updates lead through the same views, whoever replays them: the
/// view after a session is a function of the updates that came in.
pub proof fn lemma_replay_deterministic(
    limits: Limits,
    updates: Seq<ResourceUpdate>,
    first: Seq<ReconcilerView>,
    second: Seq<ReconcilerView>,
)
    requires
        is_run(limits, updates, first),
        is_run(limits, updates, second),
    ensures
        first == second,
        first.last() == replay(limits, updates),
{
    lemma_run_follows_replay(limits, updates, first, updates.len() as int);
    lemma_run_follows_replay(limits, updates, second, updates.len() as int);
    assert(updates.take(updates.len() as int) == updates);
    assert(first =~= second) by {
        assert forall|i: int| 0 <= i < first.len() implies first[i] == second[i] by {
            lemma_run_follows_replay(limits, updates, first, i);
            lemma_run_follows_replay(limits, updates, second, i);
        }
    }
}

/// The view that a run reaches after `n` updates is the replay of those.
pub proof fn lemma_run_follows_replay(
    limits: Limits,
    updates: Seq<ResourceUpdate>,
    views: Seq<ReconcilerView>,
    n: int,
)
    requires
        is_run(limits, updates, views),
        0 <= n <= updates.len(),
    ensures
        views[n] == replay(limits, updates.take(n)),
    decreases n,
{
    if n > 0 {
        lemma_run_follows_replay(limits, updates, views, n - 1);
        assert(updates.take(n).drop_last() == updates.take(n - 1));
        assert(updates.take(n).last() == updates[n - 1]);
        assert(views[(n - 1) + 1] == transition(limits, views[n - 1], updates[n - 1]));
    }
}

/// After an update that the view takes, the stats of a resource are those
/// that the update brought for it, as they came; if it brought none, they
/// are what they were; and a resource that was just announced has none.
pub proof fn lemma_stats_after_step(limits: Limits, view: ReconcilerView, update: ResourceUpdate, id: u64)
    requires
        valid(limits, view),
        accepts(view, update),
        step(limits, view, update).resources.contains_key(id),
    ensures
        update.stats_update@.contains_key(id) ==> step(limits, view, update).resources[id].stats
            == Some(update.stats_update@[id]),
        !update.stats_update@.contains_key(id) && view.resources.contains_key(id) ==> step(
            limits,
            view,
            update,
        ).resources[id].stats == view.resources[id].stats,
        !update.stats_update@.contains_key(id) && !view.resources.contains_key(id) ==> step(
            limits,
            view,
            update,
        ).resources[id].stats is None,
{
    let rs = update.new_resources@;
    assert forall|i: int| 0 <= i < rs.len() implies (#[trigger] rs[i]).key() is Some by {
        assert(!bad_new(view.resources.dom(), rs, i));
    }
    lemma_announce_all_frame(limits, view, rs);
    let announced = announce_all(limits, view, rs);
    let replaced = replace_stats(announced, update.stats_update@);
    lemma_record_all_frame(limits, replaced, update.new_poll_ops@);
    let recorded = record_all(limits, replaced, update.new_poll_ops@);
    let counted = count_dropped(recorded, update.dropped_events);
    assert(counted.resources.contains_key(id));
    assert(replaced.resources.contains_key(id));
    assert(announced.resources.contains_key(id));
    if view.resources.contains_key(id) {
        if new_ids(rs).contains(id) {
            let j = choose|j: int| 0 <= j < rs.len() && #[trigger] rs[j].key() == Some(id);
            assert(bad_new(view.resources.dom(), rs, j));
        }
    } else {
        assert(new_ids(rs).contains(id));
    }
}

/// An update that the view refuses changes nothing.
pub proof fn lemma_refused_changes_nothing(limits: Limits, view: ReconcilerView, update: ResourceUpdate)
    requires
        check(view, update) is Err,
    ensures
        transition(limits, view, update) == view,
{
}

/// The counter of dropped events after a session is the sum of what the
/// updates reported that were taken.
pub proof fn lemma_dropped_total(limits: Limits, updates: Seq<ResourceUpdate>)
    ensures
        replay(limits, updates).dropped_total == dropped_sum(limits, updates),
    decreases updates.len(),
{
    if updates.len() > 0 {
        let front = updates.drop_last();
        lemma_dropped_total(limits, front);
        lemma_replay_valid(limits, front);
        assert(updates.take(updates.len() - 1) == front);
        if check(replay(limits, front), updates.last()) is Ok {
            lemma_step_valid(limits, replay(limits, front), updates.last());
        }
    }
}

/// Where every update of a session is taken, the counter of dropped events
/// is the sum of what all the updates reported.
pub proof fn lemma_dropped_total_of_all(limits: Limits, updates: Seq<ResourceUpdate>)
    requires
        forall|k: int| 0 <= k < updates.len() ==> taken(limits, updates, k),
    ensures
        replay(limits, updates).dropped_total == reported_sum(updates),
    decreases updates.len(),
{
    lemma_dropped_total(limits, updates);
    lemma_all_taken_sum(limits, updates);
}

/// Where every update is taken, what the taken updates report is what all
/// of them report.
pub proof fn lemma_all_taken_sum(limits: Limits, updates: Seq<ResourceUpdate>)
    requires
        forall|k: int| 0 <= k < updates.len() ==> taken(limits, updates, k),
    ensures
        dropped_sum(limits, updates) == reported_sum(updates),
    decreases updates.len(),
{
    if updates.len() > 0 {
        let front = updates.drop_last();
        assert forall|k: int| 0 <= k < front.len() implies taken(limits, front, k) by {
            assert(taken(limits, updates, k));
            assert(front.take(k) == updates.take(k));
            assert(front[k] == updates[k]);
        }
        lemma_all_taken_sum(limits, front);
        assert(taken(limits, updates, updates.len() - 1));
    }
}

/// In a stream that announces every internal resource after or together
/// with its parent, no internal resource in the view is without its parent:
/// an update that the view takes keeps every parent resolvable.
pub proof fn lemma_parts_keep_parents(limits: Limits, view: ReconcilerView, update: ResourceUpdate)
    requires
        valid(limits, view),
        parts_have_parents(view),
        parents_come_first(view, update),
    ensures
        parts_have_parents(transition(limits, view, update)),
{
    if check(view, update) is Ok {
        let rs = update.new_resources@;
        assert forall|i: int| 0 <= i < rs.len() implies (#[trigger] rs[i]).key() is Some by {
            assert(!bad_new(view.resources.dom(), rs, i));
        }
        lemma_announce_all_frame(limits, view, rs);
        lemma_announce_all(limits, view, rs);
        let announced = announce_all(limits, view, rs);
        let replaced = replace_stats(announced, update.stats_update@);
        lemma_replace_stats_valid(limits, announced, update.stats_update@);
        lemma_record_all_frame(limits, replaced, update.new_poll_ops@);
        let recorded = record_all(limits, replaced, update.new_poll_ops@);
        let counted = count_dropped(recorded, update.dropped_events);
        let after = sweep(limits, counted);
        assert(after == step(limits, view, update));
        assert forall|c: u64| #[trigger]
            counted.resources.contains_key(c) && counted.resources[c].resource.is_internal
                && counted.resources[c].resource.parent_key() is Some implies counted.resources.contains_key(
            counted.resources[c].resource.parent_key()->0,
        ) by {
            assert(replaced.resources.contains_key(c));
            assert(announced.resources.contains_key(c));
            assert(counted.resources[c].resource == announced.resources[c].resource);
            if new_ids(rs).contains(c) {
                let j = choose|j: int|
                    0 <= j < rs.len() && #[trigger] rs[j].key() == Some(c)
                        && announced.resources[c].resource == rs[j];
                assert(rs[j].is_internal);
            } else {
                assert(view.resources.contains_key(c));
            }
        }
        assert forall|c: u64| #[trigger]
            after.resources.contains_key(c) && after.resources[c].resource.is_internal
                && after.resources[c].resource.parent_key() is Some implies after.resources.contains_key(
            after.resources[c].resource.parent_key()->0,
        ) by {
            let p = after.resources[c].resource.parent_key()->0;
            assert(counted.resources.contains_key(c));
            assert(counted.resources.contains_key(p));
            if p != c {
                assert(is_part_of(counted.resources[c], c, p));
                assert(has_parts(counted.resources, p));
            }
        }
    }
}

/// Over a whole session in which every internal resource is announced
/// after or together with its parent, every internal resource in the view
/// has its parent in the view.
pub proof fn lemma_session_keeps_parents(limits: Limits, updates: Seq<ResourceUpdate>)
    requires
        forall|k: int|
            0 <= k < updates.len() ==> parents_come_first(
                replay(limits, updates.take(k)),
                #[trigger] updates[k],
            ),
    ensures
        parts_have_parents(replay(limits, updates)),
    decreases updates.len(),
{
    if updates.len() > 0 {
        let front = updates.drop_last();
        assert forall|k: int| 0 <= k < front.len() implies parents_come_first(
            replay(limits, front.take(k)),
            #[trigger] front[k],
        ) by {
            assert(front.take(k) == updates.take(k));
            assert(front[k] == updates[k]);
        }
        lemma_session_keeps_parents(limits, front);
        lemma_replay_valid(limits, front);
        assert(updates.take(updates.len() - 1) == front);
        assert(parents_come_first(replay(limits, front), updates[updates.len() - 1]));
        lemma_parts_keep_parents(limits, replay(limits, front), updates.last());
    }
}

} // verus!
