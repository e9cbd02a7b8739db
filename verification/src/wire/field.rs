//! Fields: a number, a wire type and a payload, one after the other.
use vstd::prelude::*;
use vstd::bytes::{
    lemma_auto_spec_u32_to_from_le_bytes, lemma_auto_spec_u64_to_from_le_bytes,
    spec_u32_from_le_bytes, spec_u32_to_le_bytes, spec_u64_from_le_bytes, spec_u64_to_le_bytes,
    u32_from_le_bytes, u32_to_le_bytes, u64_from_le_bytes, u64_to_le_bytes,
};
use vstd::slice::{slice_subrange, slice_to_vec};
use crate::wire::varint::{
    lemma_parse_varint_bounds, lemma_varint_len, lemma_varint_round_trip, parse_varint,
    parsed_len,
    put_varint, take_varint, varint,
};

verus! {

/// The payload of a field, by its wire type.
#[derive(Clone, Debug, PartialEq, Eq)]
pub enum WireValue {
    /// A variable-length integer (wire type 0).
    Varint(u64),
    /// Eight bytes (wire type 1).
    Fixed64(u64),
    /// A length and that many bytes: a string, or a message within (wire type 2).
    Bytes(Vec<u8>),
    /// Four bytes (wire type 5).
    Fixed32(u32),
}

/// One field of a message.
#[derive(Clone, Debug, PartialEq, Eq)]
pub struct WireField {
    pub number: u32,
    pub value: WireValue,
}

/// What a [`WireValue`] holds.
pub enum WireValueView {
    Varint(u64),
    Fixed64(u64),
    Bytes(Seq<u8>),
    Fixed32(u32),
}

/// What a [`WireField`] holds.
pub struct WireFieldView {
    pub number: u32,
    pub value: WireValueView,
}

impl View for WireValue {
    type V = WireValueView;

    open spec fn view(&self) -> WireValueView {
        match *self {
            WireValue::Varint(v) => WireValueView::Varint(v),
            WireValue::Fixed64(v) => WireValueView::Fixed64(v),
            WireValue::Bytes(b) => WireValueView::Bytes(b@),
            WireValue::Fixed32(v) => WireValueView::Fixed32(v),
        }
    }
}

impl View for WireField {
    type V = WireFieldView;

    open spec fn view(&self) -> WireFieldView {
        WireFieldView { number: self.number, value: self.value@ }
    }
}

/// What a sequence of fields holds.
pub open spec fn views(fields: Seq<WireField>) -> Seq<WireFieldView> {
    fields.map_values(|f: WireField| f@)
}

/// The largest field number.
pub const MAX_NUMBER: u32 = 0x1fff_ffff;

impl WireValueView {
    /// The number of the wire type.
    pub open spec fn wire_type(self) -> u64 {
        match self {
            WireValueView::Varint(_) => 0,
            WireValueView::Fixed64(_) => 1,
            WireValueView::Bytes(_) => 2,
            WireValueView::Fixed32(_) => 5,
        }
    }

    /// The bytes of the payload.
    pub open spec fn bytes(self) -> Seq<u8> {
        match self {
            WireValueView::Varint(v) => varint(v),
            WireValueView::Fixed64(v) => spec_u64_to_le_bytes(v),
            WireValueView::Bytes(b) => varint(b.len() as u64) + b,
            WireValueView::Fixed32(v) => spec_u32_to_le_bytes(v),
        }
    }
}

impl WireFieldView {
    /// Whether the field can be written: its number is in range, and its
    /// bytes, if it has bytes, are no more than a length can say.
    pub open spec fn well_formed(self) -> bool {
        &&& 1 <= self.number <= MAX_NUMBER
        &&& self.value matches WireValueView::Bytes(b) ==> b.len() <= u64::MAX
    }

    /// The key of the field: its number and, in the low three bits, its
    /// wire type.
    pub open spec fn key(self) -> u64 {
        (self.number * 8 + self.value.wire_type()) as u64
    }

    /// The bytes of the field.
    pub open spec fn bytes(self) -> Seq<u8> {
        varint(self.key()) + self.value.bytes()
    }
}

/// Whether each of the fields can be written.
pub open spec fn well_formed(fields: Seq<WireFieldView>) -> bool {
    forall|i: int| 0 <= i < fields.len() ==> (#[trigger] fields[i]).well_formed()
}

/// The bytes of the fields, one after the other.
pub open spec fn fields_bytes(fields: Seq<WireFieldView>) -> Seq<u8>
    decreases fields.len(),
{
    if fields.len() == 0 {
        Seq::empty()
    } else {
        fields_bytes(fields.drop_last()) + fields.last().bytes()
    }
}

/// The payload of wire type `wire_type` at the front of `bytes`, and how
/// many bytes it takes.
pub open spec fn parse_value(wire_type: u64, bytes: Seq<u8>) -> Option<(WireValueView, nat)> {
    if wire_type == 0 {
        match parse_varint(bytes) {
            Some((v, n)) => Some((WireValueView::Varint(v), n)),
            None => None,
        }
    } else if wire_type == 1 {
        if bytes.len() < 8 {
            None
        } else {
            Some((WireValueView::Fixed64(spec_u64_from_le_bytes(bytes.take(8))), 8))
        }
    } else if wire_type == 2 {
        match parse_varint(bytes) {
            Some((len, n)) => if len > bytes.len() - n {
                None
            } else {
                Some((WireValueView::Bytes(bytes.subrange(n as int, n + len)), (n + len) as nat))
            },
            None => None,
        }
    } else if wire_type == 5 {
        if bytes.len() < 4 {
            None
        } else {
            Some((WireValueView::Fixed32(spec_u32_from_le_bytes(bytes.take(4))), 4))
        }
    } else {
        None
    }
}

/// The field at the front of `bytes`, and how many bytes it takes; `None`
/// if the bytes do not start with a field: the key is no number of 32
/// bits, the field number is 0, the wire type is none of 0, 1, 2 and 5, or
/// the bytes end within the field.
pub open spec fn parse_field(bytes: Seq<u8>) -> Option<(WireFieldView, nat)> {
    match parse_varint(bytes) {
        Some((key, n)) => if key > u32::MAX || key / 8 == 0 {
            None
        } else {
            match parse_value(key % 8, bytes.skip(n as int)) {
                Some((value, m)) => Some((WireFieldView { number: (key / 8) as u32, value }, n + m)),
                None => None,
            }
        },
        None => None,
    }
}

/// The fields that `bytes` are made of; `None` if the bytes are not fields
/// one after the other to their end.
pub open spec fn parse_fields(bytes: Seq<u8>) -> Option<Seq<WireFieldView>>
    decreases bytes.len(),
    via parse_fields_decreases
{
    if bytes.len() == 0 {
        Some(Seq::empty())
    } else {
        match parse_field(bytes) {
            Some((field, n)) => match parse_fields(bytes.skip(n as int)) {
                Some(rest) => Some(seq![field] + rest),
                None => None,
            },
            None => None,
        }
    }
}

#[via_fn]
proof fn parse_fields_decreases(bytes: Seq<u8>) {
    lemma_parse_field_bounds(bytes);
}

/// A field that is read takes at least one byte and no more than there are.
pub proof fn lemma_parse_field_bounds(bytes: Seq<u8>)
    ensures
        parse_field(bytes) matches Some((_, n)) ==> 1 <= n <= bytes.len(),
{
    lemma_parse_varint_bounds(bytes, 0);
    match parse_varint(bytes) {
        Some((key, n)) => {
            lemma_parse_varint_bounds(bytes.skip(n as int), 0);
        },
        None => {},
    }
}

/// The bytes of fields are those of the first, and then those of the others.
pub proof fn lemma_fields_bytes_front(fields: Seq<WireFieldView>)
    requires
        fields.len() > 0,
    ensures
        fields_bytes(fields) == fields[0].bytes() + fields_bytes(fields.drop_first()),
    decreases fields.len(),
{
    if fields.len() == 1 {
        assert(fields.drop_last() =~= Seq::empty());
        assert(fields.drop_first() =~= Seq::empty());
        assert(fields_bytes(fields) =~= fields[0].bytes() + fields_bytes(fields.drop_first()));
    } else {
        lemma_fields_bytes_front(fields.drop_last());
        assert(fields.drop_last().drop_first() =~= fields.drop_first().drop_last());
        assert(fields.drop_first().last() == fields.last());
        assert(fields.drop_last()[0] == fields[0]);
        assert(fields_bytes(fields) =~= fields[0].bytes() + fields_bytes(fields.drop_first()));
    }
}

/// The bytes of two runs of fields, one after the other, are the bytes of
/// the first and then the bytes of the second.
pub proof fn lemma_fields_bytes_concat(a: Seq<WireFieldView>, b: Seq<WireFieldView>)
    ensures
        fields_bytes(a + b) == fields_bytes(a) + fields_bytes(b),
    decreases b.len(),
{
    if b.len() == 0 {
        assert(a + b =~= a);
        assert(fields_bytes(a + b) =~= fields_bytes(a) + fields_bytes(b));
    } else {
        lemma_fields_bytes_concat(a, b.drop_last());
        assert((a + b).drop_last() =~= a + b.drop_last());
        assert((a + b).last() == b.last());
        assert(fields_bytes(a + b) =~= fields_bytes(a) + fields_bytes(b));
    }
}

/// A field that was written is read back, whatever follows it.
pub proof fn lemma_field_round_trip(field: WireFieldView, rest: Seq<u8>)
    requires
        field.well_formed(),
    ensures
        parse_field(field.bytes() + rest) == Some((field, field.bytes().len())),
        field.bytes().len() > 0,
{
    let key = field.key();
    let payload = field.value.bytes();
    let bytes = field.bytes() + rest;
    lemma_varint_len(key);
    assert(bytes =~= varint(key) + (payload + rest));
    lemma_varint_round_trip(key, payload + rest);
    let n = varint(key).len();
    assert(bytes.skip(n as int) =~= payload + rest);
    assert(key / 8 == field.number);
    assert(key % 8 == field.value.wire_type());
    match field.value {
        WireValueView::Varint(v) => {
            lemma_varint_round_trip(v, rest);
        },
        WireValueView::Fixed64(v) => {
            lemma_auto_spec_u64_to_from_le_bytes();
            assert((payload + rest).take(8) =~= payload);
        },
        WireValueView::Bytes(b) => {
            let len = b.len() as u64;
            lemma_varint_len(len);
            assert(payload + rest =~= varint(len) + (b + rest));
            lemma_varint_round_trip(len, b + rest);
            let m = varint(len).len();
            assert((payload + rest).subrange(m as int, m + len) =~= b);
        },
        WireValueView::Fixed32(v) => {
            lemma_auto_spec_u32_to_from_le_bytes();
            assert((payload + rest).take(4) =~= payload);
        },
    }
}

/// Fields that were written are read back, all of them and as they were.
pub proof fn lemma_fields_round_trip(fields: Seq<WireFieldView>)
    requires
        well_formed(fields),
    ensures
        parse_fields(fields_bytes(fields)) == Some(fields),
    decreases fields.len(),
{
    if fields.len() == 0 {
    } else {
        let tail = fields.drop_first();
        lemma_fields_bytes_front(fields);
        lemma_field_round_trip(fields[0], fields_bytes(tail));
        let n = fields[0].bytes().len();
        assert(fields_bytes(fields).skip(n as int) =~= fields_bytes(tail));
        assert forall|i: int| 0 <= i < tail.len() implies (#[trigger] tail[i]).well_formed() by {
            assert(tail[i] == fields[i + 1]);
        }
        lemma_fields_round_trip(tail);
        assert(seq![fields[0]] + tail =~= fields);
    }
}

/// Appends `bytes` to `buf`.
pub fn append(buf: &mut Vec<u8>, bytes: &[u8])
    ensures
        final(buf)@ == old(buf)@ + bytes@,
{
    let mut i: usize = 0;
    while i < bytes.len()
        invariant
            i <= bytes@.len(),
            buf@ == old(buf)@ + bytes@.take(i as int),
        decreases bytes@.len() - i,
    {
        buf.push(bytes[i]);
        assert(bytes@.take(i + 1) =~= bytes@.take(i as int).push(bytes@[i as int]));
        i += 1;
    }
    assert(bytes@.take(i as int) =~= bytes@);
}

/// Appends the bytes of `field` to `buf`.
pub fn encode_field(field: &WireField, buf: &mut Vec<u8>)
    ensures
        final(buf)@ == old(buf)@ + field@.bytes(),
{
    let number: u64 = field.number as u64;
    match &field.value {
        WireValue::Varint(v) => {
            put_varint(number * 8, buf);
            put_varint(*v, buf);
        },
        WireValue::Fixed64(v) => {
            put_varint(number * 8 + 1, buf);
            let b = u64_to_le_bytes(*v);
            append(buf, b.as_slice());
        },
        WireValue::Bytes(b) => {
            put_varint(number * 8 + 2, buf);
            put_varint(b.len() as u64, buf);
            append(buf, b.as_slice());
        },
        WireValue::Fixed32(v) => {
            put_varint(number * 8 + 5, buf);
            let b = u32_to_le_bytes(*v);
            append(buf, b.as_slice());
        },
    }
    assert(buf@ =~= old(buf)@ + field@.bytes());
}

/// The bytes of `fields`, one after the other.
pub fn encode_fields(fields: &Vec<WireField>) -> (bytes: Vec<u8>)
    ensures
        bytes@ == fields_bytes(views(fields@)),
{
    let mut bytes: Vec<u8> = Vec::new();
    let mut i: usize = 0;
    while i < fields.len()
        invariant
            i <= fields@.len(),
            bytes@ == fields_bytes(views(fields@).take(i as int)),
        decreases fields@.len() - i,
    {
        encode_field(&fields[i], &mut bytes);
        proof {
            let all = views(fields@);
            assert(all.take(i + 1).drop_last() =~= all.take(i as int));
            assert(all.take(i + 1).last() == fields@[i as int]@);
        }
        i += 1;
    }
    assert(views(fields@).take(i as int) =~= views(fields@));
    bytes
}

/// The field at the front of `bytes`, and the bytes behind it.
pub fn decode_field<'a>(bytes: &'a [u8]) -> (res: Option<(WireField, &'a [u8])>)
    ensures
        match res {
            Some((field, rest)) => parse_field(bytes@) matches Some((f, n)) && field@ == f
                && rest@ == bytes@.skip(n as int),
            None => parse_field(bytes@) is None,
        },
{
    proof {
        lemma_parse_varint_bounds(bytes@, 0);
    }
    let (key, rest) = match take_varint(bytes) {
        Some(found) => found,
        None => {
            return None;
        },
    };
    if key > u32::MAX as u64 || key / 8 == 0 {
        return None;
    }
    let number: u32 = (key / 8) as u32;
    let wire_type: u64 = key % 8;
    let ghost n = parsed_len(bytes@);
    proof {
        lemma_parse_varint_bounds(rest@, 0);
    }
    if wire_type == 0 {
        match take_varint(rest) {
            Some((v, behind)) => {
                let ghost m = parsed_len(rest@);
                assert(behind@ =~= bytes@.skip((n + m) as int));
                Some((WireField { number, value: WireValue::Varint(v) }, behind))
            },
            None => None,
        }
    } else if wire_type == 1 {
        if rest.len() < 8 {
            None
        } else {
            let v = u64_from_le_bytes(slice_subrange(rest, 0, 8));
            let behind = slice_subrange(rest, 8, rest.len());
            assert(behind@ =~= bytes@.skip((n + 8) as int));
            Some((WireField { number, value: WireValue::Fixed64(v) }, behind))
        }
    } else if wire_type == 2 {
        match take_varint(rest) {
            Some((len, data)) => {
                let ghost m = parsed_len(rest@);
                if len > data.len() as u64 {
                    None
                } else {
                    let held = slice_to_vec(slice_subrange(data, 0, len as usize));
                    let behind = slice_subrange(data, len as usize, data.len());
                    assert(held@ =~= rest@.subrange(m as int, m + len));
                    assert(behind@ =~= bytes@.skip((n + m + len) as int));
                    Some((WireField { number, value: WireValue::Bytes(held) }, behind))
                }
            },
            None => None,
        }
    } else if wire_type == 5 {
        if rest.len() < 4 {
            None
        } else {
            let v = u32_from_le_bytes(slice_subrange(rest, 0, 4));
            let behind = slice_subrange(rest, 4, rest.len());
            assert(behind@ =~= bytes@.skip((n + 4) as int));
            Some((WireField { number, value: WireValue::Fixed32(v) }, behind))
        }
    } else {
        None
    }
}

/// The fields that `bytes` are made of, or `None` if the bytes are not
/// fields one after the other to their end.
pub fn decode_fields(bytes: &[u8]) -> (res: Option<Vec<WireField>>)
    ensures
        match res {
            Some(fields) => parse_fields(bytes@) == Some(views(fields@)),
            None => parse_fields(bytes@) is None,
        },
{
    let mut fields: Vec<WireField> = Vec::new();
    let mut rest: &[u8] = bytes;
    while rest.len() > 0
        invariant
            parse_fields(bytes@) == (match parse_fields(rest@) {
                Some(tail) => Some(views(fields@) + tail),
                None => None,
            }),
        decreases rest@.len(),
    {
        proof {
            lemma_parse_field_bounds(rest@);
        }
        match decode_field(rest) {
            Some((field, behind)) => {
                let ghost before = views(fields@);
                fields.push(field);
                proof {
                    assert(views(fields@) =~= before.push(field@));
                    match parse_fields(behind@) {
                        Some(tail) => {
                            assert(before + (seq![field@] + tail) =~= views(fields@) + tail);
                        },
                        None => {},
                    }
                }
                rest = behind;
            },
            None => {
                return None;
            },
        }
    }
    proof {
        assert(views(fields@) + Seq::<WireFieldView>::empty() =~= views(fields@));
    }
    Some(fields)
}

} // verus!
