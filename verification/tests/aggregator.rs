use console_api::aggregator::{Aggregator, Event};
use console_api::common::{Id, Timestamp};
use console_api::reconciler::model::Limits;
use console_api::reconciler::Reconciler;
use console_api::resources::{PollOp, Resource, ResourceUpdate, Stats};

fn res(id: u64) -> Resource {
    Resource { id: Some(Id { id }), concrete_type: "Mutex".to_string(), ..Resource::default() }
}

fn stats(seconds: i64) -> Stats {
    Stats { created_at: Some(Timestamp { seconds, nanos: 0 }), ..Stats::default() }
}

fn op(resource: u64, name: &str) -> PollOp {
    PollOp { resource_id: Some(Id { id: resource }), name: name.to_string(), ..PollOp::default() }
}

#[test]
fn new_aggregator_is_idle() {
    let a = Aggregator::new(4);
    assert_eq!(a.capacity(), 4);
    assert_eq!(a.pending(), 0);
    assert_eq!(a.dropped(), 0);
    assert!(a.is_idle());
}

#[test]
fn idle_aggregator_publishes_an_empty_update() {
    let mut a = Aggregator::new(4);
    assert_eq!(a.publish(), ResourceUpdate::default());
    assert!(a.is_idle());
}

#[test]
fn events_are_sorted_into_the_update_in_order() {
    let mut a = Aggregator::new(8);
    assert!(a.record(Event::ResourceCreated(res(1))));
    assert!(a.record(Event::PollOpCompleted(op(1, "a"))));
    assert!(a.record(Event::StatsChanged(1, stats(1))));
    assert!(a.record(Event::ResourceCreated(res(2))));
    assert!(a.record(Event::PollOpCompleted(op(2, "b"))));
    assert_eq!(a.pending(), 5);
    assert!(!a.is_idle());
    let u = a.publish();
    assert_eq!(u.new_resources, vec![res(1), res(2)]);
    assert_eq!(u.new_poll_ops, vec![op(1, "a"), op(2, "b")]);
    assert_eq!(u.stats_update.len(), 1);
    assert_eq!(u.stats_update[&1], stats(1));
    assert_eq!(u.dropped_events, 0);
    assert!(a.is_idle());
    assert_eq!(a.capacity(), 8);
}

#[test]
fn last_stats_of_a_resource_win() {
    let mut a = Aggregator::new(8);
    a.record(Event::StatsChanged(1, stats(1)));
    a.record(Event::StatsChanged(2, stats(10)));
    a.record(Event::StatsChanged(1, stats(2)));
    a.record(Event::StatsChanged(1, stats(3)));
    let u = a.publish();
    assert_eq!(u.stats_update.len(), 2);
    assert_eq!(u.stats_update[&1], stats(3));
    assert_eq!(u.stats_update[&2], stats(10));
    assert!(u.new_resources.is_empty());
    assert!(u.new_poll_ops.is_empty());
}

#[test]
fn full_buffer_turns_events_away_and_counts_them() {
    let mut a = Aggregator::new(2);
    assert!(a.record(Event::ResourceCreated(res(1))));
    assert!(a.record(Event::ResourceCreated(res(2))));
    assert!(!a.record(Event::ResourceCreated(res(3))));
    assert!(!a.record(Event::StatsChanged(1, stats(1))));
    assert!(!a.record(Event::PollOpCompleted(op(1, "a"))));
    assert_eq!(a.pending(), 2);
    assert_eq!(a.dropped(), 3);
    let u = a.publish();
    assert_eq!(u.new_resources, vec![res(1), res(2)]);
    assert!(u.stats_update.is_empty());
    assert_eq!(u.dropped_events, 3);
    assert_eq!(a.dropped(), 0);
    assert_eq!(a.pending(), 0);
    assert!(a.record(Event::ResourceCreated(res(3))));
    assert_eq!(a.publish().dropped_events, 0);
}

#[test]
fn aggregator_without_capacity_only_counts() {
    let mut a = Aggregator::new(0);
    assert!(!a.record(Event::ResourceCreated(res(1))));
    assert!(!a.record(Event::ResourceCreated(res(2))));
    assert!(!a.is_idle());
    let u = a.publish();
    assert!(u.new_resources.is_empty());
    assert_eq!(u.dropped_events, 2);
}

#[test]
fn observer_counts_what_the_subject_dropped() {
    let mut a = Aggregator::new(3);
    let mut r = Reconciler::new(Limits { history: 4, orphans: 4, grace: 1 });
    let mut turned_away = 0u64;
    for round in 0..4u64 {
        for k in 0..5u64 {
            let id = round * 10 + k;
            if !a.record(Event::ResourceCreated(res(id))) {
                turned_away += 1;
            }
        }
        assert_eq!(r.apply(a.publish()), Ok(()));
    }
    assert_eq!(turned_away, 8);
    assert_eq!(r.dropped_total(), 8);
    assert_eq!(r.len(), 12);
}

#[test]
fn published_updates_are_taken_by_the_observer() {
    let mut a = Aggregator::new(16);
    let mut r = Reconciler::new(Limits { history: 4, orphans: 4, grace: 1 });
    a.record(Event::ResourceCreated(res(1)));
    a.record(Event::StatsChanged(1, stats(1)));
    a.record(Event::PollOpCompleted(op(1, "poll")));
    a.record(Event::StatsChanged(1, stats(2)));
    assert_eq!(r.apply(a.publish()), Ok(()));
    assert_eq!(r.get(1).unwrap().stats, Some(stats(2)));
    assert_eq!(r.get(1).unwrap().poll_ops, vec![op(1, "poll")]);
    assert_eq!(r.apply(a.publish()), Ok(()));
    assert_eq!(r.len(), 1);
}
