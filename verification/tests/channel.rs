use console_api::channel::{Channel, Link, Signal};
use console_api::common::Id;
use console_api::keys::keys_of;
use console_api::wire::field::{WireField, WireValue};
use console_api::wire::message::{decode, from_fields};
use std::collections::HashMap;

#[test]
fn new_channel_is_healthy() {
    let c = Channel::new();
    assert_eq!(c.link(), Link::Healthy);
    assert_eq!(c.lost_messages(), 0);
    assert!(!c.is_ended());
}

#[test]
fn silence_stalls_and_an_update_heals() {
    let mut c = Channel::new();
    c.observe(Signal::Silent);
    assert_eq!(c.link(), Link::Stalled);
    c.observe(Signal::Silent);
    assert_eq!(c.link(), Link::Stalled);
    c.observe(Signal::Delivered);
    assert_eq!(c.link(), Link::Healthy);
    assert_eq!(c.lost_messages(), 0);
}

#[test]
fn lost_messages_are_counted_apart() {
    let mut c = Channel::new();
    c.observe(Signal::Lost(3));
    c.observe(Signal::Silent);
    c.observe(Signal::Lost(4));
    assert_eq!(c.lost_messages(), 7);
    assert_eq!(c.link(), Link::Stalled);
    c.observe(Signal::Lost(u64::MAX));
    assert_eq!(c.lost_messages(), u64::MAX);
    c.observe(Signal::Lost(1));
    assert_eq!(c.lost_messages(), u64::MAX);
}

#[test]
fn closed_channel_stays_closed() {
    let mut c = Channel::new();
    c.observe(Signal::Lost(2));
    c.observe(Signal::Closed);
    assert!(c.is_ended());
    let ended = c.clone();
    for s in [Signal::Delivered, Signal::Silent, Signal::Lost(9), Signal::Closed] {
        c.observe(s);
        assert_eq!(c, ended);
    }
    assert_eq!(c.link(), Link::Ended);
    assert_eq!(c.lost_messages(), 2);
}

#[test]
fn keys_come_each_once() {
    let mut m: HashMap<u64, &str> = HashMap::new();
    assert!(keys_of(&m).is_empty());
    m.insert(3, "c");
    m.insert(1, "a");
    m.insert(2, "b");
    m.insert(3, "d");
    let mut keys = keys_of(&m);
    keys.sort();
    assert_eq!(keys, vec![1, 2, 3]);
}

#[test]
fn message_is_made_up_from_fields() {
    let fields = vec![
        WireField { number: 8, value: WireValue::Fixed32(1) },
        WireField { number: 1, value: WireValue::Varint(4) },
        WireField { number: 1, value: WireValue::Varint(6) },
    ];
    assert_eq!(from_fields::<Id>(&fields), Some(Id { id: 6 }));
    assert_eq!(from_fields::<Id>(&Vec::new()), Some(Id { id: 0 }));
    let fields = vec![
        WireField { number: 1, value: WireValue::Varint(4) },
        WireField { number: 1, value: WireValue::Fixed64(6) },
        WireField { number: 1, value: WireValue::Varint(6) },
    ];
    assert_eq!(from_fields::<Id>(&fields), None);
    assert_eq!(decode::<Id>(&[0x08, 0x07]), Some(Id { id: 7 }));
    assert_eq!(decode::<Id>(&[0x08]), None);
}
