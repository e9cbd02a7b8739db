//! The observer's side: merging the ordered stream of updates into one
//! live view.
use vstd::prelude::*;
use std::collections::{HashMap, HashSet, VecDeque};
use crate::keys::{keys_of, lemma_push_new, lemma_take_next};
use crate::resources::{PollOp, Resource, ResourceUpdate, Stats};
use crate::reconciler::lemmas::{
    lemma_announce_all, lemma_announce_valid, lemma_newest_push, lemma_record_valid,
    lemma_replace_stats_valid, lemma_sweep_valid,
};
use crate::reconciler::model::{
    Limits, ReconcileError, ReconcilerView, ResourceStateView, accepts, active, announce,
    announce_all, of_kind,
    bad_new,
    check, count_dropped, empty_view, first_bad_new, has_parts, is_part_of, least_stray_stats,
    leaves, new_ids, newest, ops_not_of, ops_of, record, record_all, replace_stats,
    stray_stats, sweep, transition, valid,
};

pub mod model;
pub mod lemmas;
pub mod laws;

verus! {

broadcast use vstd::std_specs::hash::group_hash_axioms;

/// What the observer holds of one resource.
#[derive(Clone, Debug, PartialEq)]
pub struct ResourceState {
    /// The static data with which the resource was announced.
    pub resource: Resource,
    /// The stats that the latest update to mention the resource gave for it.
    pub stats: Option<Stats>,
    /// The most recent poll operations on the resource, oldest first.
    pub poll_ops: VecDeque<PollOp>,
    /// For a dropped resource, the number of updates applied since the one
    /// that gave it its latest stats.
    pub dead_for: u64,
}

impl View for ResourceState {
    type V = ResourceStateView;

    open spec fn view(&self) -> ResourceStateView {
        ResourceStateView {
            resource: self.resource,
            stats: self.stats,
            poll_ops: self.poll_ops@,
            dead_for: self.dead_for,
        }
    }
}

impl ResourceState {
    /// Whether the resource's latest stats say that it was dropped.
    pub fn is_dead(&self) -> (dead: bool)
        ensures
            dead == self@.is_dead(),
    {
        match &self.stats {
            Some(s) => s.dropped_at.is_some(),
            None => false,
        }
    }
}

/// The observer's live view of the subject's resources.
///
/// It is the only writer of the view. An update is applied as a whole or
/// not at all.
#[derive(Clone, Debug, PartialEq)]
pub struct Reconciler {
    limits: Limits,
    resources: HashMap<u64, ResourceState>,
    orphans: VecDeque<PollOp>,
    dropped_total: u64,
}

impl View for Reconciler {
    type V = ReconcilerView;

    closed spec fn view(&self) -> ReconcilerView {
        ReconcilerView {
            resources: self.resources@.map_values(|s: ResourceState| s@),
            orphans: self.orphans@,
            dropped_total: self.dropped_total,
        }
    }
}

impl Reconciler {
    /// The bounds that the view is kept within.
    pub closed spec fn spec_limits(&self) -> Limits {
        self.limits
    }

    /// Whether the view is one that the observer can have reached.
    pub open spec fn wf(&self) -> bool {
        valid(self.spec_limits(), self@)
    }

    /// An observer that has seen nothing yet.
    pub fn new(limits: Limits) -> (r: Reconciler)
        ensures
            r@ == empty_view(),
            r.spec_limits() == limits,
            r.wf(),
    {
        let r = Reconciler {
            limits,
            resources: HashMap::new(),
            orphans: VecDeque::new(),
            dropped_total: 0,
        };
        assert(r@.resources =~= Map::empty());
        r
    }

    /// The bounds that the view is kept within.
    #[verifier::when_used_as_spec(spec_limits)]
    pub fn limits(&self) -> (limits: Limits)
        ensures
            limits == self.spec_limits(),
    {
        self.limits
    }

    /// What the view holds of resource `id`, if it knows it.
    pub fn get(&self, id: u64) -> (st: Option<&ResourceState>)
        ensures
            st is Some == self@.resources.contains_key(id),
            st is Some ==> st->0@ == self@.resources[id],
    {
        self.resources.get(&id)
    }

    /// Whether the view knows resource `id`.
    pub fn contains(&self, id: u64) -> (known: bool)
        ensures
            known == self@.resources.contains_key(id),
    {
        self.resources.contains_key(&id)
    }

    /// How many resources the view holds, the dead among them.
    pub fn len(&self) -> (n: usize)
        ensures
            n == self@.resources.dom().len(),
    {
        assert(self@.resources.dom() =~= self.resources@.dom());
        self.resources.len()
    }

    /// The identifiers of the resources in the view, each once.
    pub fn ids(&self) -> (ids: Vec<u64>)
        ensures
            ids@.no_duplicates(),
            forall|id: u64| ids@.contains(id) <==> self@.resources.contains_key(id),
    {
        let ids = keys_of(&self.resources);
        assert forall|id: u64| ids@.contains(id) <==> self@.resources.contains_key(id) by {
            assert(ids@.to_set().contains(id) <==> self.resources@.dom().contains(id));
        }
        ids
    }

    /// The events that the subject reported as dropped, over all updates
    /// that were applied.
    pub fn dropped_total(&self) -> (n: u64)
        ensures
            n == self@.dropped_total,
    {
        self.dropped_total
    }

    /// The poll operations held back for resources not yet announced,
    /// oldest first.
    pub fn orphans(&self) -> (ops: &VecDeque<PollOp>)
        ensures
            ops@ == self@.orphans,
    {
        &self.orphans
    }

    /// What the view holds of the parent of resource `id`: `None` if the
    /// view does not know `id`, if `id` names no parent, or if the view does
    /// not know the parent.
    pub fn parent_of(&self, id: u64) -> (st: Option<&ResourceState>)
        ensures
            st is Some == (self@.resources.contains_key(id)
                && self@.resources[id].resource.parent_key() is Some
                && self@.resources.contains_key(self@.resources[id].resource.parent_key()->0)),
            st is Some ==> st->0@ == self@.resources[self@.resources[id].resource.parent_key()->0],
    {
        match self.resources.get(&id) {
            Some(child) => match child.resource.parent_resource_id {
                Some(p) => self.resources.get(&p.id),
                None => None,
            },
            None => None,
        }
    }

    /// How many resources in the view are not dead.
    pub fn active_count(&self) -> (n: usize)
        ensures
            n == active(self@).len(),
    {
        let keys = self.ids();
        let ghost mut found: Set<u64> = Set::empty();
        let mut count: usize = 0;
        let mut n: usize = 0;
        while n < keys.len()
            invariant
                n <= keys@.len(),
                keys@.no_duplicates(),
                forall|id: u64| keys@.contains(id) <==> self@.resources.contains_key(id),
                found.finite(),
                found.len() == count,
                count <= n,
                forall|id: u64|
                    found.contains(id) <==> (keys@.take(n as int).contains(id)
                        && !self@.resources[id].is_dead()),
            decreases keys@.len() - n,
        {
            let k = keys[n];
            proof {
                lemma_take_next(keys@, n as int);
            }
            let st = self.resources.get(&k).unwrap();
            assert(st@ == self@.resources[k]);
            if !st.is_dead() {
                proof {
                    found = found.insert(k);
                }
                count += 1;
            }
            n += 1;
        }
        proof {
            assert(keys@.take(n as int) == keys@);
            assert(found =~= active(self@));
        }
        count
    }

    /// The identifiers of the resources whose kind goes by the name `name`,
    /// each once. A kind that this version does not know is found by the
    /// name that it carries.
    pub fn ids_of_kind(&self, name: &str) -> (ids: Vec<u64>)
        ensures
            ids@.no_duplicates(),
            ids@.to_set() == of_kind(self@, name@),
    {
        let keys = self.ids();
        let mut ids: Vec<u64> = Vec::new();
        let mut n: usize = 0;
        while n < keys.len()
            invariant
                n <= keys@.len(),
                keys@.no_duplicates(),
                forall|id: u64| keys@.contains(id) <==> self@.resources.contains_key(id),
                ids@.no_duplicates(),
                forall|id: u64|
                    ids@.contains(id) <==> (keys@.take(n as int).contains(id)
                        && self@.resources[id].resource.spec_kind_name() == Some(name@)),
            decreases keys@.len() - n,
        {
            let k = keys[n];
            proof {
                lemma_take_next(keys@, n as int);
            }
            let st = self.resources.get(&k).unwrap();
            assert(st@ == self@.resources[k]);
            let ghost old_ids = ids@;
            let named = st.resource.is_kind(name);
            assert(named == (self@.resources[k].resource.spec_kind_name() == Some(name@)));
            if named {
                proof {
                    lemma_push_new(ids@, k);
                }
                ids.push(k);
            }
            assert forall|id: u64|
                ids@.contains(id) <==> (keys@.take(n + 1).contains(id)
                    && self@.resources[id].resource.spec_kind_name() == Some(name@)) by {
                assert(old_ids.contains(id) <==> (keys@.take(n as int).contains(id)
                    && self@.resources[id].resource.spec_kind_name() == Some(name@)));
                if named {
                    assert(ids@.contains(id) <==> (old_ids.contains(id) || id == k));
                }
            }
            n += 1;
        }
        proof {
            assert(keys@.take(n as int) == keys@);
            assert(ids@.to_set() =~= of_kind(self@, name@));
        }
        ids
    }

    /// Takes the state of resource `id` out of the view.
    fn take_state(&mut self, id: u64) -> (st: ResourceState)
        requires
            old(self)@.resources.contains_key(id),
        ensures
            st@ == old(self)@.resources[id],
            final(self)@.resources == old(self)@.resources.remove(id),
            final(self)@.orphans == old(self)@.orphans,
            final(self)@.dropped_total == old(self)@.dropped_total,
            final(self).spec_limits() == old(self).spec_limits(),
    {
        let st = self.resources.remove(&id);
        assert(self@.resources =~= old(self)@.resources.remove(id));
        st.unwrap()
    }

    /// Puts `st` into the view as the state of resource `id`.
    fn put_state(&mut self, id: u64, st: ResourceState)
        ensures
            final(self)@.resources == old(self)@.resources.insert(id, st@),
            final(self)@.orphans == old(self)@.orphans,
            final(self)@.dropped_total == old(self)@.dropped_total,
            final(self).spec_limits() == old(self).spec_limits(),
    {
        self.resources.insert(id, st);
        assert(self@.resources =~= old(self)@.resources.insert(id, st@));
    }

    /// Takes a new resource into the view, and with it the poll operations
    /// that were held back for it.
    fn announce(&mut self, r: Resource)
        requires
            old(self).wf(),
            r.key() is Some,
        ensures
            final(self)@ == announce(old(self).spec_limits(), old(self)@, r),
            final(self).spec_limits() == old(self).spec_limits(),
            final(self).wf(),
    {
        let id = match r.id {
            Some(i) => i.id,
            None => 0,
        };
        let limit = self.limits.history;
        let mut held: VecDeque<PollOp> = VecDeque::new();
        std::mem::swap(&mut self.orphans, &mut held);
        let mut history: VecDeque<PollOp> = VecDeque::new();
        let ghost all = held@;
        let ghost mut k: int = 0;
        while held.len() > 0
            invariant
                0 <= k <= all.len(),
                held@ == all.subrange(k, all.len() as int),
                self.orphans@ == ops_not_of(all.take(k), id),
                history@ == newest(ops_of(all.take(k), id), limit as int),
                self.resources == old(self).resources,
                self.limits == old(self).limits,
                self.dropped_total == old(self).dropped_total,
            decreases all.len() - k,
        {
            let op = held.pop_front().unwrap();
            proof {
                assert(all.take(k + 1).drop_last() == all.take(k));
                assert(all.take(k + 1).last() == op);
                lemma_newest_push(ops_of(all.take(k), id), op, limit as int);
                assert(held@ =~= all.subrange(k + 1, all.len() as int));
            }
            let names = match op.resource_id {
                Some(i) => i.id == id,
                None => false,
            };
            if names {
                history.push_back(op);
                if history.len() > limit {
                    history.pop_front();
                }
            } else {
                self.orphans.push_back(op);
            }
            proof {
                k = k + 1;
            }
        }
        assert(all.take(k) == all);
        let st = ResourceState { resource: r, stats: None, poll_ops: history, dead_for: 0 };
        self.resources.insert(id, st);
        proof {
            let want = announce(old(self).spec_limits(), old(self)@, r);
            assert(self@.resources =~= want.resources);
            lemma_announce_valid(old(self).spec_limits(), old(self)@, r);
        }
    }

    /// Records one poll operation: with its resource, or, if that is not
    /// known, with the operations held back.
    fn record_op(&mut self, op: PollOp)
        requires
            old(self).wf(),
            op.key() is Some,
        ensures
            final(self)@ == record(old(self).spec_limits(), old(self)@, op),
            final(self).spec_limits() == old(self).spec_limits(),
            final(self).wf(),
    {
        let id = match op.resource_id {
            Some(i) => i.id,
            None => 0,
        };
        proof {
            lemma_record_valid(self.spec_limits(), self@, op);
        }
        if self.resources.contains_key(&id) {
            let mut st = self.take_state(id);
            st.poll_ops.push_back(op);
            if st.poll_ops.len() > self.limits.history {
                st.poll_ops.pop_front();
            }
            assert(st.poll_ops@ =~= newest(
                old(self)@.resources[id].poll_ops.push(op),
                self.limits.history as int,
            ));
            self.put_state(id, st);
            assert(self@.resources =~= record(old(self).spec_limits(), old(self)@, op).resources);
        } else {
            self.orphans.push_back(op);
            if self.orphans.len() > self.limits.orphans {
                self.orphans.pop_front();
            }
            assert(self.orphans@ =~= newest(
                old(self)@.orphans.push(op),
                self.limits.orphans as int,
            ));
        }
    }

    /// Replaces the stats of every resource that `stats_update` mentions.
    fn replace_all_stats(&mut self, stats_update: HashMap<u64, Stats>)
        requires
            old(self).wf(),
            forall|id: u64|
                stats_update@.contains_key(id) ==> old(self)@.resources.contains_key(id),
        ensures
            final(self)@ == replace_stats(old(self)@, stats_update@),
            final(self).spec_limits() == old(self).spec_limits(),
            final(self).wf(),
    {
        let mut rest = stats_update;
        let keys = keys_of(&rest);
        let ghost all = rest@;
        let ghost v0 = self@;
        let mut n: usize = 0;
        while n < keys.len()
            invariant
                n <= keys@.len(),
                keys@.no_duplicates(),
                keys@.to_set() == all.dom(),
                forall|id: u64| all.contains_key(id) ==> v0.resources.contains_key(id),
                forall|j: int|
                    n <= j < keys@.len() ==> rest@.contains_key(#[trigger] keys@[j]) && rest@[keys@[j]]
                        == all[keys@[j]],
                self@.resources == Map::new(
                    |id: u64| v0.resources.contains_key(id),
                    |id: u64|
                        if keys@.take(n as int).contains(id) {
                            v0.resources[id].with_stats(all[id])
                        } else {
                            v0.resources[id]
                        },
                ),
                self@.orphans == v0.orphans,
                self@.dropped_total == v0.dropped_total,
                self.spec_limits() == old(self).spec_limits(),
            decreases keys@.len() - n,
        {
            let k = keys[n];
            proof {
                lemma_take_next(keys@, n as int);
            }
            assert(keys@.to_set().contains(k));
            let stats = rest.remove(&k).unwrap();
            let mut st = self.take_state(k);
            st.stats = Some(stats);
            st.dead_for = 0;
            self.put_state(k, st);
            proof {
                assert(self@.resources =~= Map::new(
                    |id: u64| v0.resources.contains_key(id),
                    |id: u64|
                        if keys@.take(n + 1).contains(id) {
                            v0.resources[id].with_stats(all[id])
                        } else {
                            v0.resources[id]
                        },
                ));
            }
            n += 1;
        }
        proof {
            assert(keys@.take(n as int) == keys@);
            assert forall|id: u64| keys@.contains(id) <==> all.contains_key(id) by {
                assert(keys@.to_set().contains(id) <==> all.dom().contains(id));
            }
            assert(self@.resources =~= replace_stats(v0, all).resources);
            lemma_replace_stats_valid(old(self).spec_limits(), v0, all);
        }
    }

    /// Ends an update: the dead resources whose time is over leave the
    /// view, and the other dead resources grow one update older.
    fn sweep(&mut self)
        requires
            old(self).wf(),
        ensures
            final(self)@ == sweep(old(self).spec_limits(), old(self)@),
            final(self).spec_limits() == old(self).spec_limits(),
            final(self).wf(),
    {
        let keys = self.ids();
        let ghost v0 = self@;
        let ghost limits = self.spec_limits();
        let mut parents: HashSet<u64> = HashSet::new();
        let mut n: usize = 0;
        while n < keys.len()
            invariant
                n <= keys@.len(),
                self@ == v0,
                forall|id: u64| keys@.contains(id) <==> v0.resources.contains_key(id),
                forall|p: u64|
                    parents@.contains(p) <==> exists|j: int|
                        0 <= j < n && is_part_of(v0.resources[keys@[j]], #[trigger] keys@[j], p),
            decreases keys@.len() - n,
        {
            let k = keys[n];
            assert(keys@.contains(k));
            let st = self.resources.get(&k).unwrap();
            assert(st@ == v0.resources[k]);
            if st.resource.is_internal {
                match st.resource.parent_resource_id {
                    Some(p) => {
                        if p.id != k {
                            parents.insert(p.id);
                            assert(is_part_of(v0.resources[keys@[n as int]], keys@[n as int], p.id));
                        }
                    },
                    None => {},
                }
            }
            n += 1;
        }
        assert forall|p: u64| parents@.contains(p) <==> has_parts(v0.resources, p) by {
            if parents@.contains(p) {
                let j = choose|j: int|
                    0 <= j < n && is_part_of(v0.resources[keys@[j]], #[trigger] keys@[j], p);
                assert(keys@.contains(keys@[j]));
                assert(v0.resources.contains_key(keys@[j]));
            }
            if has_parts(v0.resources, p) {
                let c = choose|c: u64| #[trigger]
                    v0.resources.contains_key(c) && is_part_of(v0.resources[c], c, p);
                assert(keys@.contains(c));
                let j = choose|j: int| 0 <= j < keys@.len() && keys@[j] == c;
                assert(is_part_of(v0.resources[keys@[j]], keys@[j], p));
            }
        }
        let grace = self.limits.grace;
        let mut n: usize = 0;
        while n < keys.len()
            invariant
                n <= keys@.len(),
                keys@.no_duplicates(),
                grace == limits.grace,
                forall|id: u64| keys@.contains(id) <==> v0.resources.contains_key(id),
                forall|p: u64| parents@.contains(p) <==> has_parts(v0.resources, p),
                self@.resources == Map::new(
                    |id: u64|
                        v0.resources.contains_key(id) && !(keys@.take(n as int).contains(id)
                            && leaves(limits, v0.resources, id)),
                    |id: u64|
                        if keys@.take(n as int).contains(id) {
                            v0.resources[id].aged()
                        } else {
                            v0.resources[id]
                        },
                ),
                self@.orphans == v0.orphans,
                self@.dropped_total == v0.dropped_total,
                self.spec_limits() == limits,
            decreases keys@.len() - n,
        {
            let k = keys[n];
            proof {
                lemma_take_next(keys@, n as int);
            }
            let mut st = self.take_state(k);
            let dead = st.is_dead();
            if !(dead && st.dead_for >= grace && !parents.contains(&k)) {
                if dead && st.dead_for < u64::MAX {
                    st.dead_for = st.dead_for + 1;
                }
                self.put_state(k, st);
            }
            proof {
                assert(self@.resources =~= Map::new(
                    |id: u64|
                        v0.resources.contains_key(id) && !(keys@.take(n + 1).contains(id) && leaves(
                            limits,
                            v0.resources,
                            id,
                        )),
                    |id: u64|
                        if keys@.take(n + 1).contains(id) {
                            v0.resources[id].aged()
                        } else {
                            v0.resources[id]
                        },
                ));
            }
            n += 1;
        }
        proof {
            assert(keys@.take(n as int) == keys@);
            assert(self@.resources =~= sweep(limits, v0).resources);
            lemma_sweep_valid(limits, v0);
        }
    }

    /// Applies one update to the view, as a whole or not at all.
    ///
    /// The update is checked first. If the check finds a fault the view
    /// stays as it was and the fault is returned. Otherwise the new
    /// resources are taken in, the stats that came replace the stats held,
    /// the poll operations are recorded, the dropped events are counted, and
    /// the dead resources whose time is over leave the view.
    pub fn apply(&mut self, update: ResourceUpdate) -> (res: Result<(), ReconcileError>)
        requires
            old(self).wf(),
        ensures
            final(self).wf(),
            final(self).spec_limits() == old(self).spec_limits(),
            res == check(old(self)@, update),
            final(self)@ == transition(old(self).spec_limits(), old(self)@, update),
    {
        let res = self.validate(&update);
        match res {
            Err(e) => {
                return Err(e);
            },
            Ok(_) => {},
        }
        let ghost limits = self.spec_limits();
        let ghost v0 = self@;
        let ghost rs = update.new_resources@;
        let ghost ops = update.new_poll_ops@;
        let ghost stats = update.stats_update@;
        assert(accepts(v0, update));
        assert forall|i: int| 0 <= i < rs.len() implies (#[trigger] rs[i]).key() is Some by {
            assert(!bad_new(v0.resources.dom(), rs, i));
        }
        let ResourceUpdate { new_resources, stats_update, new_poll_ops, dropped_events } = update;
        for r in it: new_resources
            invariant
                it.seq() == rs,
                forall|i: int| 0 <= i < rs.len() ==> (#[trigger] rs[i]).key() is Some,
                self.wf(),
                self.spec_limits() == limits,
                self@ == announce_all(limits, v0, rs.take(it.index())),
        {
            assert(rs.take(it.index() + 1).drop_last() == rs.take(it.index()));
            self.announce(r);
        }
        proof {
            assert(rs.take(rs.len() as int) == rs);
            lemma_announce_all(limits, v0, rs);
            assert forall|id: u64| stats.contains_key(id) implies self@.resources.contains_key(
                id,
            ) by {
                assert(!stray_stats(v0.resources.dom(), update, id));
            }
        }
        self.replace_all_stats(stats_update);
        let ghost v2 = self@;
        for op in it: new_poll_ops
            invariant
                it.seq() == ops,
                forall|i: int| 0 <= i < ops.len() ==> (#[trigger] ops[i]).key() is Some,
                self.wf(),
                self.spec_limits() == limits,
                self@ == record_all(limits, v2, ops.take(it.index())),
        {
            assert(ops.take(it.index() + 1).drop_last() == ops.take(it.index()));
            self.record_op(op);
        }
        proof {
            assert(ops.take(ops.len() as int) == ops);
            crate::reconciler::lemmas::lemma_record_all(limits, v2, ops);
        }
        let ghost v3 = self@;
        self.dropped_total = self.dropped_total + dropped_events;
        assert(self@ == count_dropped(v3, dropped_events));
        self.sweep();
        Ok(())
    }

    /// Whether the view takes `update`, and if not, why.
    pub fn validate(&self, update: &ResourceUpdate) -> (res: Result<(), ReconcileError>)
        ensures
            res == check(self@, *update),
    {
        let ghost known = self@.resources.dom();
        let ghost rs = update.new_resources@;
        let ghost ops = update.new_poll_ops@;
        assert(forall|id: u64| known.contains(id) == self.resources@.contains_key(id));
        let mut seen: HashSet<u64> = HashSet::new();
        let mut i: usize = 0;
        while i < update.new_resources.len()
            invariant
                i <= rs.len(),
                rs == update.new_resources@,
                known == self@.resources.dom(),
                forall|id: u64| known.contains(id) == self.resources@.contains_key(id),
                forall|j: int| 0 <= j < i ==> !bad_new(known, rs, j),
                forall|id: u64|
                    seen@.contains(id) <==> exists|j: int|
                        0 <= j < i && #[trigger] rs[j].key() == Some(id),
            decreases rs.len() - i,
        {
            let r = &update.new_resources[i];
            match r.id {
                None => {
                    assert(first_bad_new(known, rs, i as int));
                    return Err(ReconcileError::MissingResourceId);
                },
                Some(id) => {
                    if self.resources.contains_key(&id.id) || seen.contains(&id.id) {
                        assert(first_bad_new(known, rs, i as int));
                        return Err(ReconcileError::DuplicateResource(id.id));
                    }
                    seen.insert(id.id);
                    assert(rs[i as int].key() == Some(id.id));
                },
            }
            i += 1;
        }
        assert(forall|id: u64| seen@.contains(id) <==> new_ids(rs).contains(id));
        let keys = keys_of(&update.stats_update);
        let mut least: Option<u64> = None;
        let mut n: usize = 0;
        while n < keys.len()
            invariant
                n <= keys@.len(),
                known == self@.resources.dom(),
                rs == update.new_resources@,
                forall|id: u64| known.contains(id) == self.resources@.contains_key(id),
                forall|id: u64| seen@.contains(id) <==> new_ids(rs).contains(id),
                keys@.to_set() == update.stats_update@.dom(),
                least is Some ==> stray_stats(known, *update, least->0),
                forall|j: int|
                    0 <= j < n && stray_stats(known, *update, #[trigger] keys@[j]) ==> least is Some
                        && least->0 <= keys@[j],
            decreases keys@.len() - n,
        {
            let k = keys[n];
            assert(keys@.to_set().contains(k));
            if !self.resources.contains_key(&k) && !seen.contains(&k) {
                least = match least {
                    Some(m) => if m <= k { Some(m) } else { Some(k) },
                    None => Some(k),
                };
            }
            n += 1;
        }
        match least {
            Some(m) => {
                assert(least_stray_stats(known, *update, m)) by {
                    assert forall|k: u64| stray_stats(known, *update, k) implies m <= k by {
                        assert(keys@.to_set().contains(k));
                        let j = choose|j: int| 0 <= j < keys@.len() && keys@[j] == k;
                        assert(stray_stats(known, *update, keys@[j]));
                    }
                }
                return Err(ReconcileError::UnknownResource(m));
            },
            None => {
                assert forall|k: u64| !stray_stats(known, *update, k) by {
                    if stray_stats(known, *update, k) {
                        assert(keys@.to_set().contains(k));
                        let j = choose|j: int| 0 <= j < keys@.len() && keys@[j] == k;
                        assert(stray_stats(known, *update, keys@[j]));
                    }
                }
            },
        }
        let mut p: usize = 0;
        while p < update.new_poll_ops.len()
            invariant
                p <= ops.len(),
                ops == update.new_poll_ops@,
                known == self@.resources.dom(),
                rs == update.new_resources@,
                forall|i: int| 0 <= i < rs.len() ==> !bad_new(known, rs, i),
                forall|id: u64| !stray_stats(known, *update, id),
                forall|j: int| 0 <= j < p ==> (#[trigger] ops[j]).key() is Some,
            decreases ops.len() - p,
        {
            if update.new_poll_ops[p].resource_id.is_none() {
                assert(ops[p as int].key() is None);
                return Err(ReconcileError::MissingResourceId);
            }
            p += 1;
        }
        if update.dropped_events > u64::MAX - self.dropped_total {
            return Err(ReconcileError::DroppedOverflow);
        }
        Ok(())
    }
}

} // verus!
