use console_api::common::{Attribute, AttributeValue, Id, Location, MetaId, Timestamp};
use console_api::resources::resource;
use console_api::resources::resource::kind::Kind;
use console_api::resources::{PollOp, Resource, ResourceUpdate, Stats};
use console_api::wire::field::{
    append, decode_field, decode_fields, encode_field, encode_fields, WireField, WireValue,
};
use console_api::wire::resources::{entry_bytes, StatsEntry};
use console_api::wire::scalar::{decode_text, encode_text, get_bytes, get_text, get_varint};
use console_api::wire::varint::{decode_varint, encode_varint};
use std::collections::HashMap;

fn full_resource() -> Resource {
    Resource {
        id: Some(Id { id: 7 }),
        metadata: Some(MetaId { id: 3 }),
        concrete_type: "tokio::time::Sleep".to_string(),
        kind: Some(resource::Kind { kind: Some(Kind::Known(0)) }),
        location: Some(Location {
            file: Some("src/main.rs".to_string()),
            module: Some("app::net".to_string()),
            line: Some(42),
            column: Some(0),
        }),
        parent_resource_id: Some(Id { id: 0 }),
        is_internal: true,
    }
}

fn full_stats() -> Stats {
    Stats {
        created_at: Some(Timestamp { seconds: 1_700_000_000, nanos: 999_999_999 }),
        dropped_at: Some(Timestamp { seconds: -5, nanos: -1 }),
        attributes: vec![
            Attribute { name: "duration".to_string(), value: Some(AttributeValue::U64(u64::MAX)), unit: Some("ns".to_string()) },
            Attribute { name: "delta".to_string(), value: Some(AttributeValue::I64(i64::MIN)), unit: None },
            Attribute { name: "label".to_string(), value: Some(AttributeValue::Str("grüß".to_string())), unit: Some(String::new()) },
            Attribute { name: "state".to_string(), value: Some(AttributeValue::Debug("Locked { n: 1 }".to_string())), unit: None },
            Attribute { name: "fair".to_string(), value: Some(AttributeValue::Bool(true)), unit: None },
            Attribute { name: "closed".to_string(), value: Some(AttributeValue::Bool(false)), unit: None },
            Attribute { name: String::new(), value: None, unit: None },
        ],
    }
}

fn full_poll_op() -> PollOp {
    PollOp {
        metadata: Some(MetaId { id: 11 }),
        resource_id: Some(Id { id: 7 }),
        name: "poll_elapsed".to_string(),
        task_id: Some(Id { id: 2 }),
        async_op_id: Some(Id { id: u64::MAX }),
        is_ready: true,
    }
}

#[test]
fn varint_has_its_exact_bytes() {
    assert_eq!(encode_varint(0), vec![0x00]);
    assert_eq!(encode_varint(1), vec![0x01]);
    assert_eq!(encode_varint(127), vec![0x7f]);
    assert_eq!(encode_varint(128), vec![0x80, 0x01]);
    assert_eq!(encode_varint(300), vec![0xac, 0x02]);
    assert_eq!(encode_varint(u64::MAX), vec![0xff, 0xff, 0xff, 0xff, 0xff, 0xff, 0xff, 0xff, 0xff, 0x01]);
}

#[test]
fn varint_is_read_from_the_front() {
    assert_eq!(decode_varint(&[0xac, 0x02, 0xff]), Some((300, 2)));
    assert_eq!(decode_varint(&[0x00]), Some((0, 1)));
    assert_eq!(decode_varint(&[0x80, 0x00]), Some((0, 2)));
    assert_eq!(
        decode_varint(&[0xff, 0xff, 0xff, 0xff, 0xff, 0xff, 0xff, 0xff, 0xff, 0x01, 0x55]),
        Some((u64::MAX, 10))
    );
}

#[test]
fn broken_varint_is_refused() {
    assert_eq!(decode_varint(&[]), None);
    assert_eq!(decode_varint(&[0x80]), None);
    assert_eq!(decode_varint(&[0xff, 0xff]), None);
    assert_eq!(decode_varint(&[0xff, 0xff, 0xff, 0xff, 0xff, 0xff, 0xff, 0xff, 0xff, 0x02]), None);
    assert_eq!(decode_varint(&[0x80, 0x80, 0x80, 0x80, 0x80, 0x80, 0x80, 0x80, 0x80, 0x80, 0x01]), None);
    assert_eq!(decode_varint(&[0x80, 0x80, 0x80, 0x80, 0x80, 0x80, 0x80, 0x80, 0x80, 0x80]), None);
}

#[test]
fn varint_round_trips() {
    for shift in 0..64u32 {
        for delta in [0u64, 1] {
            let v = (1u64 << shift).wrapping_sub(delta);
            let mut bytes = encode_varint(v);
            let len = bytes.len();
            bytes.push(0x99);
            assert_eq!(decode_varint(&bytes), Some((v, len)));
        }
    }
}

#[test]
fn varint_agrees_with_the_encoding_crate() {
    for v in [0u64, 1, 127, 128, 16_383, 16_384, 1 << 35, u64::MAX - 1, u64::MAX] {
        let mut expected = Vec::new();
        prost::encoding::encode_varint(v, &mut expected);
        assert_eq!(encode_varint(v), expected);
        assert_eq!(prost::encoding::encoded_len_varint(v), encode_varint(v).len());
    }
}

#[test]
fn fields_have_their_exact_bytes() {
    let fields = vec![
        WireField { number: 1, value: WireValue::Varint(150) },
        WireField { number: 2, value: WireValue::Bytes(b"testing".to_vec()) },
        WireField { number: 3, value: WireValue::Fixed64(0x0102_0304_0506_0708) },
        WireField { number: 4, value: WireValue::Fixed32(0x0a0b_0c0d) },
        WireField { number: 16, value: WireValue::Varint(0) },
    ];
    let bytes = encode_fields(&fields);
    let expected: Vec<u8> = vec![
        0x08, 0x96, 0x01, 0x12, 0x07, b't', b'e', b's', b't', b'i', b'n', b'g', 0x19, 0x08, 0x07, 0x06, 0x05, 0x04,
        0x03, 0x02, 0x01, 0x25, 0x0d, 0x0c, 0x0b, 0x0a, 0x80, 0x01, 0x00,
    ];
    assert_eq!(bytes, expected);
    assert_eq!(decode_fields(&bytes), Some(fields));
}

#[test]
fn one_field_is_read_and_the_rest_handed_back() {
    let bytes = [0x08, 0x96, 0x01, 0x12, 0x00];
    let (field, rest) = decode_field(&bytes).unwrap();
    assert_eq!(field, WireField { number: 1, value: WireValue::Varint(150) });
    assert_eq!(rest, &[0x12, 0x00]);
    let (field, rest) = decode_field(rest).unwrap();
    assert_eq!(field, WireField { number: 2, value: WireValue::Bytes(Vec::new()) });
    assert!(rest.is_empty());
    assert_eq!(decode_field(rest), None);
}

#[test]
fn field_is_appended_to_what_is_there() {
    let mut buf = vec![0xee];
    encode_field(&WireField { number: 0x1fff_ffff, value: WireValue::Varint(1) }, &mut buf);
    assert_eq!(buf, vec![0xee, 0xf8, 0xff, 0xff, 0xff, 0x0f, 0x01]);
    append(&mut buf, &[1, 2]);
    assert_eq!(buf, vec![0xee, 0xf8, 0xff, 0xff, 0xff, 0x0f, 0x01, 1, 2]);
    assert_eq!(
        decode_fields(&buf[1..7]),
        Some(vec![WireField { number: 0x1fff_ffff, value: WireValue::Varint(1) }])
    );
}

#[test]
fn no_bytes_are_no_fields() {
    assert_eq!(decode_fields(&[]), Some(Vec::new()));
    assert_eq!(encode_fields(&Vec::new()), Vec::<u8>::new());
}

#[test]
fn broken_fields_are_refused() {
    assert_eq!(decode_fields(&[0x00, 0x01]), None);
    assert_eq!(decode_fields(&[0x07, 0x01]), None);
    assert_eq!(decode_fields(&[0x0b]), None);
    assert_eq!(decode_fields(&[0x0c]), None);
    assert_eq!(decode_fields(&[0x0e, 0x00]), None);
    assert_eq!(decode_fields(&[0x08]), None);
    assert_eq!(decode_fields(&[0x12, 0x03, 0x01, 0x02]), None);
    assert_eq!(decode_fields(&[0x19, 1, 2, 3, 4, 5, 6, 7]), None);
    assert_eq!(decode_fields(&[0x25, 1, 2, 3]), None);
    assert_eq!(decode_fields(&[0x80, 0x80, 0x80, 0x80, 0x10, 0x01]), None);
    assert_eq!(decode_fields(&[0x08, 0x01, 0x80]), None);
}

#[test]
fn text_is_utf8() {
    assert_eq!(encode_text("aé"), vec![0x61, 0xc3, 0xa9]);
    assert_eq!(decode_text(&[0x61, 0xc3, 0xa9]), Some("aé".to_string()));
    assert_eq!(decode_text(&[]), Some(String::new()));
    assert_eq!(decode_text(&[0xc3]), None);
    assert_eq!(decode_text(&[0xff]), None);
    assert_eq!(decode_text(&[0xed, 0xa0, 0x80]), None);
    assert_eq!(decode_text(&[0xc0, 0x80]), None);
}

#[test]
fn payloads_are_read_by_their_wire_type() {
    assert_eq!(get_varint(&WireValue::Varint(5)), Some(5));
    assert_eq!(get_varint(&WireValue::Fixed64(5)), None);
    assert_eq!(get_varint(&WireValue::Bytes(vec![5])), None);
    assert_eq!(get_bytes(&WireValue::Bytes(vec![5])), Some(&vec![5]));
    assert_eq!(get_bytes(&WireValue::Fixed32(5)), None);
    assert_eq!(get_text(&WireValue::Bytes(b"ok".to_vec())), Some("ok".to_string()));
    assert_eq!(get_text(&WireValue::Bytes(vec![0xff])), None);
    assert_eq!(get_text(&WireValue::Varint(1)), None);
}

#[test]
fn identifier_has_its_exact_bytes() {
    assert_eq!(Id { id: 1 }.encode_to_vec(), vec![0x08, 0x01]);
    assert_eq!(Id { id: 300 }.encode_to_vec(), vec![0x08, 0xac, 0x02]);
    assert_eq!(Id { id: 0 }.encode_to_vec(), Vec::<u8>::new());
    assert_eq!(MetaId { id: 2 }.encode_to_vec(), vec![0x08, 0x02]);
    assert_eq!(Id::decode(&[0x08, 0x01]), Some(Id { id: 1 }));
    assert_eq!(MetaId::decode(&[0x08, 0x02]), Some(MetaId { id: 2 }));
}

#[test]
fn empty_messages_round_trip() {
    assert_eq!(Id::decode(&Id::default().encode_to_vec()), Some(Id::default()));
    assert_eq!(MetaId::decode(&MetaId::default().encode_to_vec()), Some(MetaId::default()));
    assert_eq!(Timestamp::decode(&Timestamp::default().encode_to_vec()), Some(Timestamp::default()));
    assert_eq!(Location::decode(&Location::default().encode_to_vec()), Some(Location::default()));
    assert_eq!(Attribute::decode(&Attribute::default().encode_to_vec()), Some(Attribute::default()));
    assert_eq!(resource::Kind::decode(&resource::Kind::default().encode_to_vec()), Some(resource::Kind::default()));
    assert_eq!(Resource::decode(&Resource::default().encode_to_vec()), Some(Resource::default()));
    assert_eq!(Stats::decode(&Stats::default().encode_to_vec()), Some(Stats::default()));
    assert_eq!(PollOp::decode(&PollOp::default().encode_to_vec()), Some(PollOp::default()));
    assert_eq!(ResourceUpdate::decode(&ResourceUpdate::default().encode_to_vec()), Some(ResourceUpdate::default()));
}

#[test]
fn empty_messages_have_no_bytes() {
    assert!(Timestamp::default().encode_to_vec().is_empty());
    assert!(Location::default().encode_to_vec().is_empty());
    assert!(Attribute::default().encode_to_vec().is_empty());
    assert!(resource::Kind::default().encode_to_vec().is_empty());
    assert!(Resource::default().encode_to_vec().is_empty());
    assert!(Stats::default().encode_to_vec().is_empty());
    assert!(PollOp::default().encode_to_vec().is_empty());
    assert!(ResourceUpdate::default().encode_to_vec().is_empty());
    assert_eq!(Resource::decode(&[]), Some(Resource::default()));
    assert_eq!(ResourceUpdate::decode(&[]), Some(ResourceUpdate::default()));
}

#[test]
fn time_round_trips_with_negative_parts() {
    for t in [
        Timestamp { seconds: 1, nanos: 1 },
        Timestamp { seconds: -1, nanos: -1 },
        Timestamp { seconds: i64::MIN, nanos: i32::MIN },
        Timestamp { seconds: i64::MAX, nanos: i32::MAX },
        Timestamp { seconds: 0, nanos: 7 },
    ] {
        assert_eq!(Timestamp::decode(&t.encode_to_vec()), Some(t));
    }
    assert_eq!(Timestamp { seconds: 2, nanos: 3 }.encode_to_vec(), vec![0x08, 0x02, 0x10, 0x03]);
    assert_eq!(
        Timestamp { seconds: 0, nanos: -1 }.encode_to_vec(),
        vec![0x10, 0xff, 0xff, 0xff, 0xff, 0xff, 0xff, 0xff, 0xff, 0xff, 0x01]
    );
}

#[test]
fn place_round_trips() {
    let l = Location { file: Some(String::new()), module: None, line: Some(u32::MAX), column: Some(0) };
    assert_eq!(l.encode_to_vec(), vec![0x0a, 0x00, 0x18, 0xff, 0xff, 0xff, 0xff, 0x0f, 0x20, 0x00]);
    assert_eq!(Location::decode(&l.encode_to_vec()), Some(l));
    let l = full_resource().location.unwrap();
    assert_eq!(Location::decode(&l.encode_to_vec()), Some(l));
}

#[test]
fn attributes_round_trip() {
    for a in full_stats().attributes {
        assert_eq!(Attribute::decode(&a.encode_to_vec()), Some(a));
    }
    let a = Attribute { name: "n".to_string(), value: Some(AttributeValue::Bool(true)), unit: Some("u".to_string()) };
    assert_eq!(a.encode_to_vec(), vec![0x0a, 0x01, b'n', 0x30, 0x01, 0x3a, 0x01, b'u']);
}

#[test]
fn kinds_round_trip() {
    let known = resource::Kind { kind: Some(Kind::Known(0)) };
    assert_eq!(known.encode_to_vec(), vec![0x08, 0x00]);
    assert_eq!(resource::Kind::decode(&known.encode_to_vec()), Some(known));
    let later = resource::Kind { kind: Some(Kind::Known(-3)) };
    assert_eq!(resource::Kind::decode(&later.encode_to_vec()), Some(later));
    let other = resource::Kind { kind: Some(Kind::Other("CustomLock".to_string())) };
    let mut expected = vec![0x12, 0x0a];
    expected.extend_from_slice(b"CustomLock");
    assert_eq!(other.encode_to_vec(), expected);
    assert_eq!(resource::Kind::decode(&expected), Some(other));
    let unnamed = resource::Kind { kind: Some(Kind::Other(String::new())) };
    assert_eq!(resource::Kind::decode(&unnamed.encode_to_vec()), Some(unnamed));
}

#[test]
fn last_kind_stays() {
    let bytes = [0x12, 0x01, b'x', 0x08, 0x00];
    assert_eq!(resource::Kind::decode(&bytes), Some(resource::Kind { kind: Some(Kind::Known(0)) }));
    let bytes = [0x08, 0x00, 0x12, 0x01, b'x'];
    assert_eq!(resource::Kind::decode(&bytes), Some(resource::Kind { kind: Some(Kind::Other("x".to_string())) }));
}

#[test]
fn resource_has_its_exact_bytes() {
    let r = Resource { id: Some(Id { id: 1 }), is_internal: true, ..Resource::default() };
    assert_eq!(r.encode_to_vec(), vec![0x0a, 0x02, 0x08, 0x01, 0x38, 0x01]);
    let r = Resource { id: Some(Id { id: 0 }), concrete_type: "T".to_string(), ..Resource::default() };
    assert_eq!(r.encode_to_vec(), vec![0x0a, 0x00, 0x1a, 0x01, b'T']);
    assert_eq!(Resource::decode(&[0x0a, 0x00, 0x1a, 0x01, b'T']), Some(r));
}

#[test]
fn resource_round_trips() {
    let r = full_resource();
    let bytes = r.encode_to_vec();
    assert_eq!(Resource::decode(&bytes), Some(r));
}

#[test]
fn stats_round_trip() {
    let s = full_stats();
    assert_eq!(Stats::decode(&s.encode_to_vec()), Some(s));
}

#[test]
fn poll_op_round_trips() {
    let p = full_poll_op();
    assert_eq!(PollOp::decode(&p.encode_to_vec()), Some(p));
    let p = PollOp { resource_id: Some(Id { id: 5 }), ..PollOp::default() };
    assert_eq!(p.encode_to_vec(), vec![0x1a, 0x02, 0x08, 0x05]);
}

#[test]
fn entry_round_trips() {
    let e = StatsEntry { key: 9, value: full_stats() };
    assert_eq!(e.encode_to_vec(), entry_bytes(9, &full_stats()));
    assert_eq!(StatsEntry::decode(&e.encode_to_vec()), Some(e));
    let e = StatsEntry { key: 0, value: Stats::default() };
    assert_eq!(e.encode_to_vec(), vec![0x12, 0x00]);
    assert_eq!(StatsEntry::decode(&[]), Some(e));
}

#[test]
fn update_round_trips() {
    let mut stats_update = HashMap::new();
    stats_update.insert(7, full_stats());
    stats_update.insert(0, Stats::default());
    stats_update.insert(u64::MAX, Stats { dropped_at: Some(Timestamp { seconds: 3, nanos: 0 }), ..Stats::default() });
    let u = ResourceUpdate {
        new_resources: vec![full_resource(), Resource::default(), full_resource()],
        stats_update,
        new_poll_ops: vec![full_poll_op(), PollOp::default()],
        dropped_events: 12,
    };
    assert_eq!(ResourceUpdate::decode(&u.encode_to_vec()), Some(u));
}

#[test]
fn update_has_its_exact_bytes() {
    let mut stats_update = HashMap::new();
    stats_update.insert(1, Stats::default());
    let u = ResourceUpdate {
        new_resources: vec![Resource { id: Some(Id { id: 1 }), ..Resource::default() }],
        stats_update,
        new_poll_ops: vec![PollOp { is_ready: true, ..PollOp::default() }],
        dropped_events: 2,
    };
    assert_eq!(
        u.encode_to_vec(),
        vec![0x0a, 0x04, 0x0a, 0x02, 0x08, 0x01, 0x12, 0x04, 0x08, 0x01, 0x12, 0x00, 0x1a, 0x02, 0x38, 0x01, 0x20, 0x02]
    );
}

#[test]
fn later_stats_for_one_resource_replace_earlier_ones() {
    let first = entry_bytes(4, &full_stats());
    let second = entry_bytes(4, &Stats::default());
    let mut bytes = Vec::new();
    for e in [first, second] {
        encode_field(&WireField { number: 2, value: WireValue::Bytes(e) }, &mut bytes);
    }
    let u = ResourceUpdate::decode(&bytes).unwrap();
    assert_eq!(u.stats_update.len(), 1);
    assert_eq!(u.stats_update[&4], Stats::default());
}

#[test]
fn unknown_fields_are_passed_over() {
    let mut bytes = Id { id: 5 }.encode_to_vec();
    encode_field(&WireField { number: 9, value: WireValue::Bytes(vec![1, 2, 3]) }, &mut bytes);
    encode_field(&WireField { number: 10, value: WireValue::Fixed64(1) }, &mut bytes);
    encode_field(&WireField { number: 11, value: WireValue::Fixed32(1) }, &mut bytes);
    encode_field(&WireField { number: 12, value: WireValue::Varint(1) }, &mut bytes);
    assert_eq!(Id::decode(&bytes), Some(Id { id: 5 }));
    let mut bytes = full_resource().encode_to_vec();
    encode_field(&WireField { number: 100, value: WireValue::Varint(1) }, &mut bytes);
    assert_eq!(Resource::decode(&bytes), Some(full_resource()));
    let mut bytes = Vec::new();
    encode_field(&WireField { number: 1, value: WireValue::Bytes(vec![]) }, &mut bytes);
    assert_eq!(PollOp::decode(&bytes), Some(PollOp::default()));
}

#[test]
fn last_of_several_fields_stays() {
    assert_eq!(Id::decode(&[0x08, 0x01, 0x08, 0x02]), Some(Id { id: 2 }));
    let bytes = [0x1a, 0x01, b'a', 0x1a, 0x01, b'b'];
    assert_eq!(Resource::decode(&bytes).unwrap().concrete_type, "b");
}

#[test]
fn wrong_wire_type_is_refused() {
    assert_eq!(Id::decode(&[0x0a, 0x00]), None);
    assert_eq!(Id::decode(&[0x0d, 0, 0, 0, 0]), None);
    assert_eq!(Timestamp::decode(&[0x12, 0x00]), None);
    assert_eq!(Resource::decode(&[0x08, 0x01]), None);
    assert_eq!(Resource::decode(&[0x3a, 0x00]), None);
    assert_eq!(Stats::decode(&[0x18, 0x01]), None);
    assert_eq!(PollOp::decode(&[0x20, 0x01]), None);
    assert_eq!(ResourceUpdate::decode(&[0x22, 0x00]), None);
    assert_eq!(Location::decode(&[0x08, 0x00]), None);
    assert_eq!(Attribute::decode(&[0x20, 0x00, 0x32, 0x00]), None);
}

#[test]
fn broken_parts_are_refused() {
    assert_eq!(Resource::decode(&[0x1a, 0x01, 0xff]), None);
    assert_eq!(Resource::decode(&[0x0a, 0x01, 0x08]), None);
    assert_eq!(Resource::decode(&[0x0a, 0x02, 0x0a, 0x00]), None);
    assert_eq!(Stats::decode(&[0x1a, 0x03, 0x0a, 0x01, 0xff]), None);
    assert_eq!(ResourceUpdate::decode(&[0x0a, 0x02, 0x08, 0x01]), None);
    assert_eq!(ResourceUpdate::decode(&[0x12, 0x02, 0x0a, 0x00]), None);
    assert_eq!(ResourceUpdate::decode(&[0x0a, 0x05]), None);
    assert_eq!(resource::Kind::decode(&[0x12, 0x01, 0x80]), None);
}

#[test]
fn numbers_wider_than_their_member_keep_their_low_bits() {
    assert_eq!(
        Location::decode(&[0x18, 0x81, 0x80, 0x80, 0x80, 0x10]),
        Some(Location { line: Some(1), ..Location::default() })
    );
    assert_eq!(
        resource::Kind::decode(&[0x08, 0xff, 0xff, 0xff, 0xff, 0x0f]),
        Some(resource::Kind { kind: Some(Kind::Known(-1)) })
    );
    assert_eq!(
        PollOp::decode(&[0x38, 0x02]),
        Some(PollOp { is_ready: true, ..PollOp::default() })
    );
}
