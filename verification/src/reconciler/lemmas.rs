//! Facts about the pieces that make up one step of the view.
use vstd::prelude::*;
use crate::resources::PollOp;
use crate::reconciler::model::{
    Limits, ReconcilerView, accepts, announce, announce_all, bad_new, check, count_dropped, new_ids,
    newest, ops_not_of, ops_of, record, record_all, replace_stats, step, sweep, transition, valid,
};
use crate::resources::{Resource, ResourceUpdate, Stats};

verus! {

/// The newest items of a sequence are no more than asked for, and each is
/// an item of the sequence.
pub proof fn lemma_newest<T>(s: Seq<T>, n: int)
    requires
        0 <= n,
    ensures
        newest(s, n).len() <= n,
        newest(s, n).len() <= s.len(),
        forall|i: int|
            0 <= i < newest(s, n).len() ==> #[trigger] newest(s, n)[i] == s[s.len() - newest(
                s,
                n,
            ).len() + i],
{
}

/// To keep the newest items after each push is to keep the newest items of
/// all that was pushed.
pub proof fn lemma_newest_push<T>(s: Seq<T>, x: T, n: int)
    requires
        0 <= n,
    ensures
        newest(newest(s, n).push(x), n) == newest(s.push(x), n),
{
    assert(newest(newest(s, n).push(x), n) =~= newest(s.push(x), n));
}

/// Every operation picked for a resource names it.
pub proof fn lemma_ops_of(ops: Seq<PollOp>, id: u64)
    ensures
        ops_of(ops, id).len() <= ops.len(),
        forall|i: int| 0 <= i < ops_of(ops, id).len() ==> (#[trigger] ops_of(ops, id)[i]).key() == Some(id),
    decreases ops.len(),
{
    if ops.len() > 0 {
        lemma_ops_of(ops.drop_last(), id);
    }
}

/// Every operation left over is one of those given, and names another
/// resource or none.
pub proof fn lemma_ops_not_of(ops: Seq<PollOp>, id: u64)
    ensures
        ops_not_of(ops, id).len() <= ops.len(),
        forall|i: int|
            0 <= i < ops_not_of(ops, id).len() ==> {
                &&& (#[trigger] ops_not_of(ops, id)[i]).key() != Some(id)
                &&& ops.contains(ops_not_of(ops, id)[i])
            },
    decreases ops.len(),
{
    if ops.len() > 0 {
        let front = ops.drop_last();
        lemma_ops_not_of(front, id);
        assert forall|i: int| 0 <= i < ops_not_of(ops, id).len() implies ops.contains(
            #[trigger] ops_not_of(ops, id)[i],
        ) by {
            let x = ops_not_of(ops, id)[i];
            if i < ops_not_of(front, id).len() {
                assert(front.contains(x));
                let j = choose|j: int| 0 <= j < front.len() && front[j] == x;
                assert(ops[j] == x);
            } else {
                assert(ops[ops.len() - 1] == x);
            }
        }
    }
}

/// A new resource leaves the view valid.
pub proof fn lemma_announce_valid(limits: Limits, view: ReconcilerView, r: Resource)
    requires
        valid(limits, view),
        r.key() is Some,
    ensures
        valid(limits, announce(limits, view, r)),
{
    let id = r.key()->0;
    let after = announce(limits, view, r);
    lemma_ops_of(view.orphans, id);
    lemma_ops_not_of(view.orphans, id);
    lemma_newest(ops_of(view.orphans, id), limits.history as int);
    assert forall|i: int| 0 <= i < after.orphans.len() implies {
        &&& (#[trigger] after.orphans[i]).key() is Some
        &&& !after.resources.contains_key(after.orphans[i].key()->0)
    } by {
        let x = after.orphans[i];
        assert(view.orphans.contains(x));
        let j = choose|j: int| 0 <= j < view.orphans.len() && view.orphans[j] == x;
        assert(view.orphans[j].key() is Some);
    }
}

/// A recorded poll operation leaves the view valid.
pub proof fn lemma_record_valid(limits: Limits, view: ReconcilerView, op: PollOp)
    requires
        valid(limits, view),
        op.key() is Some,
    ensures
        valid(limits, record(limits, view, op)),
{
    let id = op.key()->0;
    let after = record(limits, view, op);
    if view.resources.contains_key(id) {
        let st = view.resources[id];
        lemma_newest(st.poll_ops.push(op), limits.history as int);
        assert forall|i: int| 0 <= i < after.orphans.len() implies {
            &&& (#[trigger] after.orphans[i]).key() is Some
            &&& !after.resources.contains_key(after.orphans[i].key()->0)
        } by {
            assert(view.orphans[i].key() is Some);
        }
    } else {
        lemma_newest(view.orphans.push(op), limits.orphans as int);
    }
}

/// The view takes an update exactly when the check finds nothing.
pub proof fn lemma_check_accepts(view: ReconcilerView, update: ResourceUpdate)
    ensures
        check(view, update) is Ok <==> accepts(view, update),
{
}

/// New resources that all carry identifiers leave the view valid, and
/// the view then knows them and what it knew.
pub proof fn lemma_announce_all(limits: Limits, view: ReconcilerView, rs: Seq<Resource>)
    requires
        valid(limits, view),
        forall|i: int| 0 <= i < rs.len() ==> (#[trigger] rs[i]).key() is Some,
    ensures
        valid(limits, announce_all(limits, view, rs)),
        announce_all(limits, view, rs).resources.dom() == view.resources.dom().union(new_ids(rs)),
        announce_all(limits, view, rs).dropped_total == view.dropped_total,
    decreases rs.len(),
{
    if rs.len() == 0 {
        assert(view.resources.dom() =~= view.resources.dom().union(new_ids(rs)));
    } else {
        let front = rs.drop_last();
        lemma_announce_all(limits, view, front);
        let mid = announce_all(limits, view, front);
        lemma_announce_valid(limits, mid, rs.last());
        let after = announce_all(limits, view, rs);
        let id = rs.last().key()->0;
        assert forall|x: u64| new_ids(rs).contains(x) <==> (new_ids(front).contains(x) || x
            == id) by {
            if new_ids(rs).contains(x) {
                let j = choose|j: int| 0 <= j < rs.len() && #[trigger] rs[j].key() == Some(x);
                if j < front.len() {
                    assert(front[j].key() == Some(x));
                }
            }
            if new_ids(front).contains(x) {
                let j = choose|j: int| 0 <= j < front.len() && #[trigger] front[j].key() == Some(x);
                assert(rs[j].key() == Some(x));
            }
            if x == id {
                assert(rs[rs.len() - 1].key() == Some(x));
            }
        }
        assert(after.resources.dom() =~= view.resources.dom().union(new_ids(rs)));
    }
}

/// Replaced stats leave the view valid.
pub proof fn lemma_replace_stats_valid(limits: Limits, view: ReconcilerView, stats: Map<u64, Stats>)
    requires
        valid(limits, view),
    ensures
        valid(limits, replace_stats(view, stats)),
        replace_stats(view, stats).resources.dom() == view.resources.dom(),
{
    let after = replace_stats(view, stats);
    assert(after.resources.dom() =~= view.resources.dom());
    assert forall|i: int| 0 <= i < after.orphans.len() implies {
        &&& (#[trigger] after.orphans[i]).key() is Some
        &&& !after.resources.contains_key(after.orphans[i].key()->0)
    } by {
        assert(view.orphans[i].key() is Some);
    }
}

/// Recorded poll operations that all name a resource leave the view valid,
/// and the view knows the same resources as before.
pub proof fn lemma_record_all(limits: Limits, view: ReconcilerView, ops: Seq<PollOp>)
    requires
        valid(limits, view),
        forall|i: int| 0 <= i < ops.len() ==> (#[trigger] ops[i]).key() is Some,
    ensures
        valid(limits, record_all(limits, view, ops)),
        record_all(limits, view, ops).resources.dom() == view.resources.dom(),
        record_all(limits, view, ops).dropped_total == view.dropped_total,
    decreases ops.len(),
{
    if ops.len() > 0 {
        lemma_record_all(limits, view, ops.drop_last());
        let mid = record_all(limits, view, ops.drop_last());
        lemma_record_valid(limits, mid, ops.last());
        assert(record(limits, mid, ops.last()).resources.dom() =~= mid.resources.dom());
    }
}

/// The end of an update leaves the view valid, and adds no resource.
pub proof fn lemma_sweep_valid(limits: Limits, view: ReconcilerView)
    requires
        valid(limits, view),
    ensures
        valid(limits, sweep(limits, view)),
        sweep(limits, view).resources.dom().subset_of(view.resources.dom()),
{
    let after = sweep(limits, view);
    assert(after.resources.dom().subset_of(view.resources.dom()));
    vstd::set_lib::lemma_len_subset(after.resources.dom(), view.resources.dom());
    assert forall|i: int| 0 <= i < after.orphans.len() implies {
        &&& (#[trigger] after.orphans[i]).key() is Some
        &&& !after.resources.contains_key(after.orphans[i].key()->0)
    } by {
        assert(view.orphans[i].key() is Some);
    }
}

/// An update that the view takes leaves it valid, and every resource known
/// afterwards was known before or came with the update.
pub proof fn lemma_step_valid(limits: Limits, view: ReconcilerView, update: ResourceUpdate)
    requires
        valid(limits, view),
        accepts(view, update),
    ensures
        valid(limits, step(limits, view, update)),
        step(limits, view, update).resources.dom().subset_of(
            view.resources.dom().union(new_ids(update.new_resources@)),
        ),
        step(limits, view, update).dropped_total == view.dropped_total + update.dropped_events,
{
    let rs = update.new_resources@;
    assert forall|i: int| 0 <= i < rs.len() implies (#[trigger] rs[i]).key() is Some by {
        assert(!bad_new(view.resources.dom(), rs, i));
    }
    lemma_announce_all(limits, view, rs);
    let announced = announce_all(limits, view, rs);
    lemma_replace_stats_valid(limits, announced, update.stats_update@);
    let replaced = replace_stats(announced, update.stats_update@);
    lemma_record_all(limits, replaced, update.new_poll_ops@);
    let recorded = record_all(limits, replaced, update.new_poll_ops@);
    let counted = count_dropped(recorded, update.dropped_events);
    assert(valid(limits, counted));
    lemma_sweep_valid(limits, counted);
}

/// Every update leaves the view valid, taken or not.
pub proof fn lemma_transition_valid(limits: Limits, view: ReconcilerView, update: ResourceUpdate)
    requires
        valid(limits, view),
    ensures
        valid(limits, transition(limits, view, update)),
{
    if check(view, update) is Ok {
        lemma_step_valid(limits, view, update);
    }
}

} // verus!
