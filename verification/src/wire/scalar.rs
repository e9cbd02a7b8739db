//! The values that fields carry: numbers, truth values and text.
use vstd::prelude::*;
use vstd::slice::slice_to_vec;
use vstd::string::StringSliceAdditionalSpecFns;
use vstd::utf8::{
    decode_utf8, encode_utf8, encode_utf8_decode_utf8, encode_utf8_valid_utf8, valid_utf8,
};
use crate::wire::field::{WireField, WireFieldView, WireValue, WireValueView, views, well_formed};

verus! {

/// The field numbered `number` that carries the number `v`.
pub open spec fn varint_field(number: u32, v: u64) -> WireFieldView {
    WireFieldView { number, value: WireValueView::Varint(v) }
}

/// The field numbered `number` that carries the bytes `b`.
pub open spec fn bytes_field(number: u32, b: Seq<u8>) -> WireFieldView {
    WireFieldView { number, value: WireValueView::Bytes(b) }
}

/// The fields `s`, and after them the field `f` if `present` holds.
pub open spec fn push_if(s: Seq<WireFieldView>, present: bool, f: WireFieldView) -> Seq<WireFieldView> {
    if present {
        s.push(f)
    } else {
        s
    }
}

/// The number that a payload carries, if it is of the wire type for numbers.
pub open spec fn as_varint(v: WireValueView) -> Option<u64> {
    match v {
        WireValueView::Varint(x) => Some(x),
        _ => None,
    }
}

/// The bytes that a payload carries, if it is of the wire type for bytes.
pub open spec fn as_bytes(v: WireValueView) -> Option<Seq<u8>> {
    match v {
        WireValueView::Bytes(b) => Some(b),
        _ => None,
    }
}

/// The text that the bytes `b` spell, if they are UTF-8.
pub open spec fn parse_text(b: Seq<u8>) -> Option<Seq<char>> {
    if valid_utf8(b) {
        Some(decode_utf8(b))
    } else {
        None
    }
}

/// The text that a payload carries, if it is of the wire type for bytes
/// and its bytes are UTF-8.
pub open spec fn as_text(v: WireValueView) -> Option<Seq<char>> {
    match v {
        WireValueView::Bytes(b) => parse_text(b),
        _ => None,
    }
}

/// Text that was written is read back.
pub proof fn lemma_text_round_trip(s: Seq<char>)
    ensures
        parse_text(encode_utf8(s)) == Some(s),
{
    encode_utf8_valid_utf8(s);
    encode_utf8_decode_utf8(s);
}

/// A signed number of 64 bits, written as the unsigned number of the same
/// bits, is read back.
pub proof fn lemma_i64_round_trip(x: i64)
    ensures
        ((x as u64) as i64) == x,
{
    assert(((x as u64) as i64) == x) by (bit_vector);
}

/// A signed number of 32 bits, widened to 64 bits and written as the
/// unsigned number of the same bits, is read back from the low 32 bits.
pub proof fn lemma_i32_round_trip(x: i32)
    ensures
        (((x as i64) as u64) as i32) == x,
{
    assert((((x as i64) as u64) as i32) == x) by (bit_vector);
}

/// An unsigned number of 32 bits is read back from the low 32 bits.
pub proof fn lemma_u32_round_trip(x: u32)
    ensures
        ((x as u64) as u32) == x,
{
    assert(((x as u64) as u32) == x) by (bit_vector);
}

/// The bytes as a string slice, if they are UTF-8.
///
/// Calls `std::str::from_utf8`, which checks that the bytes are UTF-8 and
/// then hands them out as a string slice, unchanged.
#[verifier::external_body]
pub(crate) fn str_from_utf8<'a>(bytes: &'a [u8]) -> (res: Option<&'a str>)
    ensures
        res is Some == valid_utf8(bytes@),
        res is Some ==> res->0.spec_bytes() == bytes@,
{
    match std::str::from_utf8(bytes) {
        Ok(s) => Some(s),
        Err(_) => None,
    }
}

/// The text that `bytes` spell, if they are UTF-8.
pub fn decode_text(bytes: &[u8]) -> (res: Option<String>)
    ensures
        match res {
            Some(s) => parse_text(bytes@) == Some(s@),
            None => parse_text(bytes@) is None,
        },
{
    match str_from_utf8(bytes) {
        Some(s) => {
            proof {
                encode_utf8_decode_utf8(s@);
            }
            Some(s.to_owned())
        },
        None => None,
    }
}

/// The bytes that spell `s` in UTF-8.
pub fn encode_text(s: &str) -> (bytes: Vec<u8>)
    ensures
        bytes@ == encode_utf8(s@),
{
    slice_to_vec(s.as_bytes())
}

/// The number that `value` carries, if it is of the wire type for numbers.
pub fn get_varint(value: &WireValue) -> (res: Option<u64>)
    ensures
        res == as_varint(value@),
{
    match value {
        WireValue::Varint(v) => Some(*v),
        _ => None,
    }
}

/// The bytes that `value` carries, if it is of the wire type for bytes.
pub fn get_bytes(value: &WireValue) -> (res: Option<&Vec<u8>>)
    ensures
        match res {
            Some(b) => as_bytes(value@) == Some(b@),
            None => as_bytes(value@) is None,
        },
{
    match value {
        WireValue::Bytes(b) => Some(b),
        _ => None,
    }
}

/// The text that `value` carries, if it is of the wire type for bytes and
/// its bytes are UTF-8.
pub fn get_text(value: &WireValue) -> (res: Option<String>)
    ensures
        match res {
            Some(s) => as_text(value@) == Some(s@),
            None => as_text(value@) is None,
        },
{
    match value {
        WireValue::Bytes(b) => decode_text(b.as_slice()),
        _ => None,
    }
}

/// A field numbered `number` that carries the number `v`.
pub fn new_varint_field(number: u32, v: u64) -> (f: WireField)
    ensures
        f@ == varint_field(number, v),
{
    WireField { number, value: WireValue::Varint(v) }
}

/// A field numbered `number` that carries the bytes `b`.
pub fn new_bytes_field(number: u32, b: Vec<u8>) -> (f: WireField)
    ensures
        f@ == bytes_field(number, b@),
        b@.len() <= u64::MAX,
{
    let _ = b.len();
    WireField { number, value: WireValue::Bytes(b) }
}

/// A field numbered `number` that carries the text `s`.
pub fn new_text_field(number: u32, s: &str) -> (f: WireField)
    ensures
        f@ == bytes_field(number, encode_utf8(s@)),
        encode_utf8(s@).len() <= u64::MAX,
{
    new_bytes_field(number, encode_text(s))
}

/// Puts a field that can be written behind fields that can be written.
pub fn push_field(fs: &mut Vec<WireField>, f: WireField)
    requires
        well_formed(views(old(fs)@)),
        f@.well_formed(),
    ensures
        views(final(fs)@) == views(old(fs)@).push(f@),
        well_formed(views(final(fs)@)),
{
    fs.push(f);
    assert(views(fs@) =~= views(old(fs)@).push(f@));
    assert forall|i: int| 0 <= i < views(fs@).len() implies (#[trigger] views(fs@)[i]).well_formed() by {
        if i < old(fs)@.len() {
            assert(views(fs@)[i] == views(old(fs)@)[i]);
        }
    }
}

} // verus!
