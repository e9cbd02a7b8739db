//! The messages that carry resource state from the subject to the observer.
use vstd::prelude::*;
use std::collections::HashMap;
use crate::common::{Attribute, AttributeView, Id, Location, LocationView, MetaId, Timestamp};

pub mod resource;

verus! {

/// A snapshot of what changed since the previous one.
///
/// It holds the resources created since the last snapshot, the current stats
/// of every resource whose stats changed, the poll operations completed since
/// then, and the number of events that were lost in that interval.
#[derive(Clone, Debug, PartialEq)]
pub struct ResourceUpdate {
    /// The resources created since the last snapshot, each sent once.
    pub new_resources: Vec<Resource>,
    /// The latest stats of each resource whose stats changed; a full replacement.
    pub stats_update: HashMap<u64, Stats>,
    /// The poll operations completed since the last snapshot.
    pub new_poll_ops: Vec<PollOp>,
    /// How many events were not recorded since the last snapshot because the
    /// subject's event buffer was full.
    pub dropped_events: u64,
}

/// Static data recorded when a resource is created.
#[derive(Clone, Debug, PartialEq)]
pub struct Resource {
    /// The resource's identifier.
    pub id: Option<Id>,
    /// The identifier of the resource's metadata record.
    pub metadata: Option<MetaId>,
    /// The resource's concrete type.
    pub concrete_type: String,
    /// The kind of resource (a timer, a mutex, ...).
    pub kind: Option<resource::Kind>,
    /// Where in the code the resource was created.
    pub location: Option<Location>,
    /// The identifier of the parent resource; a root resource has none.
    pub parent_resource_id: Option<Id>,
    /// Whether the resource is an internal component of another resource.
    pub is_internal: bool,
}

/// The mutable state of a resource, replaced as a whole by every update.
#[derive(Clone, Debug, PartialEq)]
pub struct Stats {
    /// When the resource was created.
    pub created_at: Option<Timestamp>,
    /// When the resource was dropped; `None` while it is live.
    pub dropped_at: Option<Timestamp>,
    /// The state attributes of the resource, which depend on its kind.
    pub attributes: Vec<Attribute>,
}

/// One completed poll operation on a resource.
#[derive(Clone, Debug, PartialEq)]
pub struct PollOp {
    /// The identifier of the operation's metadata record.
    pub metadata: Option<MetaId>,
    /// The resource that was polled.
    pub resource_id: Option<Id>,
    /// The name of the operation (`poll_elapsed`, `reset`, ...).
    pub name: String,
    /// The task in whose context the operation ran.
    pub task_id: Option<Id>,
    /// The async operation that the poll is part of.
    pub async_op_id: Option<Id>,
    /// Whether the poll returned ready rather than pending.
    pub is_ready: bool,
}

/// What a [`Resource`] holds.
pub struct ResourceView {
    pub id: Option<Id>,
    pub metadata: Option<MetaId>,
    pub concrete_type: Seq<char>,
    pub kind: Option<resource::KindView>,
    pub location: Option<LocationView>,
    pub parent_resource_id: Option<Id>,
    pub is_internal: bool,
}

impl View for Resource {
    type V = ResourceView;

    open spec fn view(&self) -> ResourceView {
        ResourceView {
            id: self.id,
            metadata: self.metadata,
            concrete_type: self.concrete_type@,
            kind: match self.kind {
                Some(k) => Some(k@),
                None => None,
            },
            location: match self.location {
                Some(l) => Some(l@),
                None => None,
            },
            parent_resource_id: self.parent_resource_id,
            is_internal: self.is_internal,
        }
    }
}

/// What a [`Stats`] holds.
pub struct StatsView {
    pub created_at: Option<Timestamp>,
    pub dropped_at: Option<Timestamp>,
    pub attributes: Seq<AttributeView>,
}

impl View for Stats {
    type V = StatsView;

    open spec fn view(&self) -> StatsView {
        StatsView {
            created_at: self.created_at,
            dropped_at: self.dropped_at,
            attributes: self.attributes@.map_values(|a: Attribute| a@),
        }
    }
}

/// What a [`PollOp`] holds.
pub struct PollOpView {
    pub metadata: Option<MetaId>,
    pub resource_id: Option<Id>,
    pub name: Seq<char>,
    pub task_id: Option<Id>,
    pub async_op_id: Option<Id>,
    pub is_ready: bool,
}

impl View for PollOp {
    type V = PollOpView;

    open spec fn view(&self) -> PollOpView {
        PollOpView {
            metadata: self.metadata,
            resource_id: self.resource_id,
            name: self.name@,
            task_id: self.task_id,
            async_op_id: self.async_op_id,
            is_ready: self.is_ready,
        }
    }
}

/// What a [`ResourceUpdate`] holds.
pub struct ResourceUpdateView {
    pub new_resources: Seq<ResourceView>,
    pub stats_update: Map<u64, StatsView>,
    pub new_poll_ops: Seq<PollOpView>,
    pub dropped_events: u64,
}

impl View for ResourceUpdate {
    type V = ResourceUpdateView;

    open spec fn view(&self) -> ResourceUpdateView {
        ResourceUpdateView {
            new_resources: self.new_resources@.map_values(|r: Resource| r@),
            stats_update: self.stats_update@.map_values(|s: Stats| s@),
            new_poll_ops: self.new_poll_ops@.map_values(|p: PollOp| p@),
            dropped_events: self.dropped_events,
        }
    }
}

impl Resource {
    /// The number under which the resource is known, if it carries one.
    pub open spec fn key(self) -> Option<u64> {
        match self.id {
            Some(i) => Some(i.id),
            None => None,
        }
    }

    /// The number of the parent resource, if there is one.
    pub open spec fn parent_key(self) -> Option<u64> {
        match self.parent_resource_id {
            Some(i) => Some(i.id),
            None => None,
        }
    }

    /// The name of the resource's kind, if the kind is set and has a name.
    pub open spec fn spec_kind_name(self) -> Option<Seq<char>> {
        match self.kind {
            Some(k) => k.spec_name(),
            None => None,
        }
    }

    /// The name of the resource's kind, if the kind is set and has a name.
    pub fn kind_name(&self) -> (name: Option<&str>)
        ensures
            name is Some == self.spec_kind_name() is Some,
            name is Some ==> name->0@ == self.spec_kind_name()->0,
    {
        match &self.kind {
            Some(k) => k.name(),
            None => None,
        }
    }

    /// Whether the resource is of the kind that goes by the given name.
    pub fn is_kind(&self, name: &str) -> (named: bool)
        ensures
            named == (self.spec_kind_name() == Some(name@)),
    {
        match &self.kind {
            Some(k) => k.is_named(name),
            None => false,
        }
    }
}

impl Stats {
    /// Whether these stats say that the resource has been dropped.
    pub open spec fn spec_is_dropped(&self) -> bool {
        self.dropped_at is Some
    }

    /// Whether these stats say that the resource has been dropped.
    #[verifier::when_used_as_spec(spec_is_dropped)]
    pub fn is_dropped(&self) -> (dropped: bool)
        ensures
            dropped == self.spec_is_dropped(),
    {
        self.dropped_at.is_some()
    }
}

impl PollOp {
    /// The number of the resource that was polled, if the operation names one.
    pub open spec fn key(self) -> Option<u64> {
        match self.resource_id {
            Some(i) => Some(i.id),
            None => None,
        }
    }
}

impl Default for Resource {
    fn default() -> (r: Resource)
        ensures
            r@ == (ResourceView {
                id: None,
                metadata: None,
                concrete_type: Seq::empty(),
                kind: None,
                location: None,
                parent_resource_id: None,
                is_internal: false,
            }),
    {
        Resource {
            id: None,
            metadata: None,
            concrete_type: String::new(),
            kind: None,
            location: None,
            parent_resource_id: None,
            is_internal: false,
        }
    }
}

impl Default for Stats {
    fn default() -> (r: Stats)
        ensures
            r@ == (StatsView { created_at: None, dropped_at: None, attributes: Seq::empty() }),
    {
        let r = Stats { created_at: None, dropped_at: None, attributes: Vec::new() };
        assert(r@.attributes =~= Seq::empty());
        r
    }
}

impl Default for PollOp {
    fn default() -> (r: PollOp)
        ensures
            r@ == (PollOpView {
                metadata: None,
                resource_id: None,
                name: Seq::empty(),
                task_id: None,
                async_op_id: None,
                is_ready: false,
            }),
    {
        PollOp {
            metadata: None,
            resource_id: None,
            name: String::new(),
            task_id: None,
            async_op_id: None,
            is_ready: false,
        }
    }
}

impl Default for ResourceUpdate {
    fn default() -> (r: ResourceUpdate)
        ensures
            r@ == (ResourceUpdateView {
                new_resources: Seq::empty(),
                stats_update: Map::empty(),
                new_poll_ops: Seq::empty(),
                dropped_events: 0,
            }),
            r.new_resources@.len() == 0,
            r.stats_update@ == Map::<u64, Stats>::empty(),
            r.new_poll_ops@.len() == 0,
    {
        let r = ResourceUpdate {
            new_resources: Vec::new(),
            stats_update: HashMap::new(),
            new_poll_ops: Vec::new(),
            dropped_events: 0,
        };
        assert(r@.new_resources =~= Seq::empty());
        assert(r@.stats_update =~= Map::empty());
        assert(r@.new_poll_ops =~= Seq::empty());
        r
    }
}

} // verus!
