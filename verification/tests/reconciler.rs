use console_api::common::{Id, Timestamp};
use console_api::reconciler::model::{Limits, ReconcileError};
use console_api::reconciler::Reconciler;
use console_api::resources::resource;
use console_api::resources::resource::kind::Kind;
use console_api::resources::{PollOp, Resource, ResourceUpdate, Stats};
use std::collections::HashMap;

fn limits() -> Limits {
    Limits { history: 3, orphans: 2, grace: 1 }
}

fn timer(id: u64) -> Resource {
    Resource {
        id: Some(Id { id }),
        concrete_type: "Sleep".to_string(),
        kind: Some(resource::Kind { kind: Some(Kind::Known(0)) }),
        ..Resource::default()
    }
}

fn part(id: u64, parent: u64) -> Resource {
    Resource { parent_resource_id: Some(Id { id: parent }), is_internal: true, ..timer(id) }
}

fn op(resource: u64, name: &str) -> PollOp {
    PollOp { resource_id: Some(Id { id: resource }), name: name.to_string(), ..PollOp::default() }
}

fn live(seconds: i64) -> Stats {
    Stats { created_at: Some(Timestamp { seconds, nanos: 0 }), ..Stats::default() }
}

fn dead(seconds: i64) -> Stats {
    Stats {
        created_at: Some(Timestamp { seconds, nanos: 0 }),
        dropped_at: Some(Timestamp { seconds: seconds + 1, nanos: 5 }),
        attributes: Vec::new(),
    }
}

fn update(new: Vec<Resource>, stats: Vec<(u64, Stats)>, ops: Vec<PollOp>, dropped: u64) -> ResourceUpdate {
    let mut stats_update = HashMap::new();
    for (k, v) in stats {
        stats_update.insert(k, v);
    }
    ResourceUpdate { new_resources: new, stats_update, new_poll_ops: ops, dropped_events: dropped }
}

fn names(r: &Reconciler, id: u64) -> Vec<String> {
    r.get(id).unwrap().poll_ops.iter().map(|p| p.name.clone()).collect()
}

#[test]
fn new_observer_is_empty() {
    let r = Reconciler::new(limits());
    assert_eq!(r.len(), 0);
    assert_eq!(r.active_count(), 0);
    assert_eq!(r.dropped_total(), 0);
    assert!(r.orphans().is_empty());
    assert_eq!(r.limits(), limits());
    assert!(r.ids().is_empty());
    assert!(!r.contains(1));
    assert!(r.get(1).is_none());
}

#[test]
fn created_then_updated_resource_scenario() {
    let mut r = Reconciler::new(limits());
    assert_eq!(r.apply(update(vec![timer(1)], vec![], vec![], 0)), Ok(()));
    let st = r.get(1).unwrap();
    assert_eq!(st.resource, timer(1));
    assert_eq!(st.stats, None);
    assert!(st.poll_ops.is_empty());
    assert_eq!(r.apply(update(vec![], vec![(1, live(100))], vec![op(1, "op1")], 2)), Ok(()));
    assert_eq!(r.len(), 1);
    let st = r.get(1).unwrap();
    assert_eq!(st.stats.as_ref().unwrap().created_at, Some(Timestamp { seconds: 100, nanos: 0 }));
    assert_eq!(st.stats, Some(live(100)));
    assert_eq!(st.poll_ops, vec![op(1, "op1")]);
    assert_eq!(r.dropped_total(), 2);
}

#[test]
fn unknown_kind_is_found_by_its_name() {
    let mut r = Reconciler::new(limits());
    let custom = Resource {
        kind: Some(resource::Kind { kind: Some(Kind::Other("CustomLock".to_string())) }),
        ..timer(9)
    };
    assert_eq!(r.apply(update(vec![timer(1), custom.clone(), timer(3)], vec![], vec![], 0)), Ok(()));
    assert_eq!(r.ids_of_kind("CustomLock"), vec![9]);
    let mut timers = r.ids_of_kind("TIMER");
    timers.sort();
    assert_eq!(timers, vec![1, 3]);
    assert!(r.ids_of_kind("Mutex").is_empty());
    assert_eq!(r.get(9).unwrap().resource.kind_name(), Some("CustomLock"));
    let back = Resource::decode(&custom.encode_to_vec()).unwrap();
    assert_eq!(back, custom);
    assert!(back.is_kind("CustomLock"));
}

#[test]
fn internal_resource_resolves_its_parent() {
    let mut r = Reconciler::new(limits());
    assert_eq!(r.apply(update(vec![timer(1)], vec![], vec![], 0)), Ok(()));
    assert_eq!(r.apply(update(vec![part(2, 1)], vec![], vec![], 0)), Ok(()));
    assert_eq!(r.parent_of(2).unwrap().resource, timer(1));
    assert!(r.parent_of(1).is_none());
    assert!(r.parent_of(7).is_none());
}

#[test]
fn parent_may_come_in_the_same_update_after_its_part() {
    let mut r = Reconciler::new(limits());
    assert_eq!(r.apply(update(vec![part(2, 1), timer(1)], vec![], vec![], 0)), Ok(()));
    assert_eq!(r.parent_of(2).unwrap().resource.id, Some(Id { id: 1 }));
}

#[test]
fn stats_alone_create_no_resource() {
    let mut r = Reconciler::new(limits());
    assert_eq!(r.apply(update(vec![timer(1)], vec![], vec![], 1)), Ok(()));
    let before = r.clone();
    let res = r.apply(update(vec![], vec![(1, live(1)), (5, live(2))], vec![op(1, "a")], 4));
    assert_eq!(res, Err(ReconcileError::UnknownResource(5)));
    assert_eq!(r, before);
    assert!(!r.contains(5));
    assert_eq!(r.get(1).unwrap().stats, None);
    assert_eq!(r.dropped_total(), 1);
}

#[test]
fn least_stray_identifier_is_reported() {
    let mut r = Reconciler::new(limits());
    let u = update(vec![timer(4)], vec![(9, live(1)), (4, live(1)), (7, live(2)), (8, live(3))], vec![], 0);
    assert_eq!(r.validate(&u), Err(ReconcileError::UnknownResource(7)));
    assert_eq!(r.apply(u), Err(ReconcileError::UnknownResource(7)));
    assert_eq!(r.len(), 0);
}

#[test]
fn known_identifier_is_refused_as_new() {
    let mut r = Reconciler::new(limits());
    assert_eq!(r.apply(update(vec![timer(1)], vec![(1, live(3))], vec![], 0)), Ok(()));
    let before = r.clone();
    let res = r.apply(update(vec![timer(2), timer(1)], vec![], vec![], 7));
    assert_eq!(res, Err(ReconcileError::DuplicateResource(1)));
    assert_eq!(r, before);
    assert!(!r.contains(2));
}

#[test]
fn identifier_twice_in_one_update_is_refused() {
    let mut r = Reconciler::new(limits());
    let res = r.apply(update(vec![timer(3), timer(4), timer(3)], vec![], vec![], 0));
    assert_eq!(res, Err(ReconcileError::DuplicateResource(3)));
    assert_eq!(r.len(), 0);
}

#[test]
fn resource_without_identifier_is_refused() {
    let mut r = Reconciler::new(limits());
    let res = r.apply(update(vec![timer(3), Resource::default()], vec![], vec![], 0));
    assert_eq!(res, Err(ReconcileError::MissingResourceId));
    assert_eq!(r.len(), 0);
}

#[test]
fn first_fault_among_new_resources_is_reported() {
    let mut r = Reconciler::new(limits());
    let res = r.apply(update(vec![timer(3), timer(3), Resource::default()], vec![(8, live(1))], vec![], 0));
    assert_eq!(res, Err(ReconcileError::DuplicateResource(3)));
}

#[test]
fn poll_op_without_resource_is_refused() {
    let mut r = Reconciler::new(limits());
    let res = r.apply(update(vec![timer(3)], vec![], vec![op(3, "a"), PollOp::default()], 0));
    assert_eq!(res, Err(ReconcileError::MissingResourceId));
    assert_eq!(r.len(), 0);
}

#[test]
fn overflow_of_the_drop_counter_is_refused() {
    let mut r = Reconciler::new(limits());
    assert_eq!(r.apply(update(vec![], vec![], vec![], u64::MAX - 1)), Ok(()));
    assert_eq!(r.apply(update(vec![timer(1)], vec![], vec![], 2)), Err(ReconcileError::DroppedOverflow));
    assert_eq!(r.dropped_total(), u64::MAX - 1);
    assert!(!r.contains(1));
    assert_eq!(r.apply(update(vec![timer(1)], vec![], vec![], 1)), Ok(()));
    assert_eq!(r.dropped_total(), u64::MAX);
}

#[test]
fn dropped_events_add_up_over_the_updates_taken() {
    let mut r = Reconciler::new(limits());
    assert_eq!(r.apply(update(vec![], vec![], vec![], 3)), Ok(()));
    assert_eq!(r.apply(update(vec![timer(1)], vec![], vec![], 0)), Ok(()));
    assert!(r.apply(update(vec![timer(1)], vec![], vec![], 100)).is_err());
    assert_eq!(r.apply(update(vec![], vec![], vec![], 39)), Ok(()));
    assert_eq!(r.dropped_total(), 42);
}

#[test]
fn stats_are_replaced_as_a_whole() {
    let mut r = Reconciler::new(limits());
    let full = Stats {
        created_at: Some(Timestamp { seconds: 1, nanos: 2 }),
        dropped_at: None,
        attributes: vec![console_api::common::Attribute {
            name: "duration".to_string(),
            value: Some(console_api::common::AttributeValue::U64(10)),
            unit: Some("ms".to_string()),
        }],
    };
    assert_eq!(r.apply(update(vec![timer(1), timer(2)], vec![(1, full.clone()), (2, live(5))], vec![], 0)), Ok(()));
    assert_eq!(r.get(1).unwrap().stats, Some(full));
    let bare = Stats::default();
    assert_eq!(r.apply(update(vec![], vec![(1, bare.clone())], vec![], 0)), Ok(()));
    assert_eq!(r.get(1).unwrap().stats, Some(bare));
    assert_eq!(r.get(2).unwrap().stats, Some(live(5)));
}

#[test]
fn replay_gives_the_same_view() {
    let script = || {
        vec![
            update(vec![timer(1), part(2, 1)], vec![(1, live(1))], vec![op(2, "a"), op(8, "early")], 1),
            update(vec![], vec![(7, live(1))], vec![], 9),
            update(vec![timer(8)], vec![(2, dead(4)), (8, live(2))], vec![op(1, "b")], 2),
            update(vec![], vec![], vec![op(1, "c"), op(1, "d"), op(1, "e")], 0),
        ]
    };
    let mut a = Reconciler::new(limits());
    let mut b = Reconciler::new(limits());
    let ra: Vec<_> = script().into_iter().map(|u| a.apply(u)).collect();
    let rb: Vec<_> = script().into_iter().map(|u| b.apply(u)).collect();
    assert_eq!(ra, rb);
    assert_eq!(ra[1], Err(ReconcileError::UnknownResource(7)));
    assert_eq!(a, b);
    assert_eq!(a.dropped_total(), 3);
    assert_eq!(names(&a, 1), vec!["c", "d", "e"]);
    assert_eq!(names(&a, 8), vec!["early"]);
}

#[test]
fn history_keeps_the_newest_poll_ops() {
    let mut r = Reconciler::new(limits());
    let ops = vec![op(1, "a"), op(1, "b"), op(1, "c"), op(1, "d")];
    assert_eq!(r.apply(update(vec![timer(1)], vec![], ops, 0)), Ok(()));
    assert_eq!(names(&r, 1), vec!["b", "c", "d"]);
    assert_eq!(r.apply(update(vec![], vec![], vec![op(1, "e")], 0)), Ok(()));
    assert_eq!(names(&r, 1), vec!["c", "d", "e"]);
}

#[test]
fn no_history_is_kept_with_a_limit_of_zero() {
    let mut r = Reconciler::new(Limits { history: 0, orphans: 0, grace: 0 });
    assert_eq!(r.apply(update(vec![timer(1)], vec![], vec![op(1, "a"), op(2, "b")], 0)), Ok(()));
    assert!(r.get(1).unwrap().poll_ops.is_empty());
    assert!(r.orphans().is_empty());
}

#[test]
fn early_poll_ops_wait_for_their_resource() {
    let mut r = Reconciler::new(Limits { history: 3, orphans: 4, grace: 1 });
    assert_eq!(r.apply(update(vec![], vec![], vec![op(5, "a"), op(6, "x"), op(5, "b")], 0)), Ok(()));
    assert_eq!(r.len(), 0);
    assert_eq!(r.orphans().len(), 3);
    assert_eq!(r.apply(update(vec![timer(5)], vec![], vec![op(5, "c")], 0)), Ok(()));
    assert_eq!(names(&r, 5), vec!["a", "b", "c"]);
    assert_eq!(r.orphans().iter().map(|p| p.name.clone()).collect::<Vec<_>>(), vec!["x"]);
}

#[test]
fn oldest_held_poll_ops_expire_first() {
    let mut r = Reconciler::new(limits());
    assert_eq!(r.apply(update(vec![], vec![], vec![op(5, "a"), op(6, "x"), op(5, "b")], 0)), Ok(()));
    assert_eq!(r.orphans().iter().map(|p| p.name.clone()).collect::<Vec<_>>(), vec!["x", "b"]);
    assert_eq!(r.apply(update(vec![timer(5)], vec![], vec![], 0)), Ok(()));
    assert_eq!(names(&r, 5), vec!["b"]);
}

#[test]
fn reattached_poll_ops_respect_the_history_limit() {
    let mut r = Reconciler::new(Limits { history: 2, orphans: 5, grace: 1 });
    let ops = vec![op(5, "a"), op(5, "b"), op(5, "c")];
    assert_eq!(r.apply(update(vec![], vec![], ops, 0)), Ok(()));
    assert_eq!(r.apply(update(vec![timer(5)], vec![], vec![], 0)), Ok(()));
    assert_eq!(names(&r, 5), vec!["b", "c"]);
    assert!(r.orphans().is_empty());
}

#[test]
fn dead_resource_leaves_after_its_grace() {
    let mut r = Reconciler::new(Limits { history: 3, orphans: 2, grace: 2 });
    assert_eq!(r.apply(update(vec![timer(1), timer(2)], vec![(1, dead(1)), (2, live(1))], vec![], 0)), Ok(()));
    assert_eq!(r.len(), 2);
    assert_eq!(r.active_count(), 1);
    assert!(r.get(1).unwrap().is_dead());
    assert_eq!(r.get(1).unwrap().dead_for, 1);
    assert_eq!(r.get(2).unwrap().dead_for, 0);
    assert_eq!(r.apply(ResourceUpdate::default()), Ok(()));
    assert_eq!(r.get(1).unwrap().dead_for, 2);
    assert_eq!(r.apply(ResourceUpdate::default()), Ok(()));
    assert!(!r.contains(1));
    assert!(r.contains(2));
    assert_eq!(r.len(), 1);
    assert_eq!(r.active_count(), 1);
}

#[test]
fn dead_resource_leaves_at_once_without_grace() {
    let mut r = Reconciler::new(Limits { history: 3, orphans: 2, grace: 0 });
    assert_eq!(r.apply(update(vec![timer(1)], vec![(1, dead(1))], vec![], 0)), Ok(()));
    assert!(!r.contains(1));
    assert_eq!(r.apply(update(vec![timer(1)], vec![], vec![], 0)), Ok(()));
    assert!(r.contains(1));
}

#[test]
fn stats_for_a_resource_that_left_are_stray() {
    let mut r = Reconciler::new(Limits { history: 3, orphans: 2, grace: 0 });
    assert_eq!(r.apply(update(vec![timer(1)], vec![(1, dead(1))], vec![], 0)), Ok(()));
    assert_eq!(r.apply(update(vec![], vec![(1, live(1))], vec![], 0)), Err(ReconcileError::UnknownResource(1)));
}

#[test]
fn dead_parent_stays_while_its_part_is_in_the_view() {
    let mut r = Reconciler::new(Limits { history: 3, orphans: 2, grace: 0 });
    assert_eq!(r.apply(update(vec![timer(1), part(2, 1)], vec![(1, dead(1))], vec![], 0)), Ok(()));
    assert!(r.contains(1));
    assert_eq!(r.parent_of(2).unwrap().resource, timer(1));
    assert_eq!(r.apply(update(vec![], vec![(2, dead(2))], vec![], 0)), Ok(()));
    assert!(!r.contains(2));
    assert!(r.contains(1));
    assert_eq!(r.apply(ResourceUpdate::default()), Ok(()));
    assert!(!r.contains(1));
    assert_eq!(r.len(), 0);
}

#[test]
fn fresh_stats_restart_the_grace() {
    let mut r = Reconciler::new(Limits { history: 3, orphans: 2, grace: 2 });
    assert_eq!(r.apply(update(vec![timer(1)], vec![(1, dead(1))], vec![], 0)), Ok(()));
    assert_eq!(r.apply(update(vec![], vec![(1, dead(1))], vec![], 0)), Ok(()));
    assert_eq!(r.get(1).unwrap().dead_for, 1);
    assert_eq!(r.apply(update(vec![], vec![(1, live(1))], vec![], 0)), Ok(()));
    assert_eq!(r.get(1).unwrap().dead_for, 0);
    assert!(!r.get(1).unwrap().is_dead());
    assert_eq!(r.apply(ResourceUpdate::default()), Ok(()));
    assert_eq!(r.apply(ResourceUpdate::default()), Ok(()));
    assert!(r.contains(1));
}

#[test]
fn every_identifier_in_the_view_was_announced() {
    let mut r = Reconciler::new(limits());
    let mut announced = Vec::new();
    for round in 0..5u64 {
        let news = vec![timer(round * 2 + 1), timer(round * 2 + 2)];
        announced.push(round * 2 + 1);
        announced.push(round * 2 + 2);
        let stats = vec![(round * 2 + 1, dead(round as i64))];
        assert_eq!(r.apply(update(news, stats, vec![op(100 + round, "x")], 0)), Ok(()));
    }
    let mut ids = r.ids();
    ids.sort();
    assert_eq!(ids.len(), r.len());
    for id in &ids {
        assert!(announced.contains(id));
    }
    assert_eq!(ids, vec![2, 4, 6, 8, 9, 10]);
}
