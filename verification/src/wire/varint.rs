//! Variable-length integers: seven bits to a byte, the low bits first, the
//! high bit of each byte set where another byte follows.
use vstd::prelude::*;

verus! {

/// The bytes that encode `v`.
pub open spec fn varint(v: u64) -> Seq<u8>
    decreases v,
{
    if v < 128 {
        seq![v as u8]
    } else {
        seq![(v % 128 + 128) as u8] + varint(v / 128)
    }
}

/// The number that starts at the front of `bytes`, and how many bytes it
/// takes, where `pos` bytes of the number came before. A number takes ten
/// bytes at most, and the tenth holds one bit.
pub open spec fn parse_varint_from(bytes: Seq<u8>, pos: nat) -> Option<(nat, nat)>
    decreases bytes.len(),
{
    if bytes.len() == 0 || pos >= 10 {
        None
    } else if bytes[0] < 128 {
        if pos == 9 && bytes[0] >= 2 {
            None
        } else {
            Some((bytes[0] as nat, 1))
        }
    } else {
        match parse_varint_from(bytes.drop_first(), pos + 1) {
            Some((v, n)) => Some(((bytes[0] - 128) as nat + 128 * v, n + 1)),
            None => None,
        }
    }
}

/// The number encoded at the front of `bytes`, and how many bytes it takes;
/// `None` if the bytes end within the number, or if the number has more
/// than 64 bits.
pub open spec fn parse_varint(bytes: Seq<u8>) -> Option<(u64, nat)> {
    match parse_varint_from(bytes, 0) {
        Some((v, n)) => Some((v as u64, n)),
        None => None,
    }
}

/// How many bytes the number at the front of `bytes` takes; 0 if there is none.
pub open spec fn parsed_len(bytes: Seq<u8>) -> nat {
    match parse_varint(bytes) {
        Some((_, n)) => n,
        None => 0,
    }
}

/// What a number can be at most, and one more, of which `pos` bytes came
/// before.
pub open spec fn room(pos: nat) -> nat
    decreases 9 - pos,
{
    if pos >= 9 {
        2
    } else {
        128 * room(pos + 1)
    }
}

/// Appends the encoding of `value` to `buf`.
///
/// Calls `prost::encoding::encode_varint`, which writes the low seven bits
/// of the value with the high bit set while more than seven bits are left,
/// and then the last bits as they are.
#[verifier::external_body]
pub(crate) fn put_varint(value: u64, buf: &mut Vec<u8>)
    ensures
        final(buf)@ == old(buf)@ + varint(value),
{
    prost::encoding::encode_varint(value, buf);
}

/// Reads the number at the front of `bytes` and hands out the bytes behind it.
///
/// Calls `prost::encoding::decode_varint`, which reads bytes up to the
/// first without the high bit, ten at most, adds up their low seven bits,
/// and fails where the bytes end first or where the tenth byte holds more
/// than one bit.
#[verifier::external_body]
pub(crate) fn take_varint<'a>(bytes: &'a [u8]) -> (res: Option<(u64, &'a [u8])>)
    ensures
        match res {
            Some((v, rest)) => parse_varint(bytes@) matches Some((value, n)) && v == value
                && rest@ == bytes@.skip(n as int),
            None => parse_varint(bytes@) is None,
        },
{
    let mut rest: &[u8] = bytes;
    match prost::encoding::decode_varint(&mut rest) {
        Ok(v) => Some((v, rest)),
        Err(_) => None,
    }
}

/// The encoding of `value`.
pub fn encode_varint(value: u64) -> (bytes: Vec<u8>)
    ensures
        bytes@ == varint(value),
{
    let mut bytes: Vec<u8> = Vec::new();
    put_varint(value, &mut bytes);
    assert(bytes@ =~= varint(value));
    bytes
}

/// The number encoded at the front of `bytes`, and how many bytes it takes.
pub fn decode_varint(bytes: &[u8]) -> (res: Option<(u64, usize)>)
    ensures
        match res {
            Some((v, n)) => parse_varint(bytes@) == Some((v, n as nat)),
            None => parse_varint(bytes@) is None,
        },
{
    proof {
        lemma_parse_varint_bounds(bytes@, 0);
    }
    match take_varint(bytes) {
        Some((v, rest)) => Some((v, bytes.len() - rest.len())),
        None => None,
    }
}

/// A number that is read is within its room, and takes at least one byte
/// and no more than there are; the tenth byte is the last.
pub proof fn lemma_parse_varint_bounds(bytes: Seq<u8>, pos: nat)
    ensures
        parse_varint_from(bytes, pos) matches Some((v, n)) ==> v < room(pos) && 1 <= n
            <= bytes.len() && pos + n <= 10,
    decreases bytes.len(),
{
    lemma_room_at_least(pos + 1);
    if bytes.len() == 0 || pos >= 10 {
    } else if bytes[0] < 128 {
    } else {
        lemma_parse_varint_bounds(bytes.drop_first(), pos + 1);
    }
}

/// There is room for one bit at least.
pub proof fn lemma_room_at_least(pos: nat)
    ensures
        room(pos) >= 2,
    decreases 9 - pos,
{
    if pos < 9 {
        lemma_room_at_least(pos + 1);
    }
}

/// A number of no more than 64 bits has all the room there is.
pub proof fn lemma_room_at_start()
    ensures
        room(0) == 0x1_0000_0000_0000_0000,
{
    reveal_with_fuel(room, 11);
}

/// The encoding of a number is at most ten bytes long, and never empty.
pub proof fn lemma_varint_len(v: u64)
    ensures
        1 <= varint(v).len() <= 10,
{
    lemma_room_at_start();
    lemma_varint_round_trip_from(v, Seq::empty(), 0);
    lemma_parse_varint_bounds(varint(v) + Seq::<u8>::empty(), 0);
}

/// What was encoded is read back, whatever follows it, from wherever in a
/// number there is room for it.
pub proof fn lemma_varint_round_trip_from(v: u64, rest: Seq<u8>, pos: nat)
    requires
        pos <= 9,
        v < room(pos),
    ensures
        parse_varint_from(varint(v) + rest, pos) == Some((v as nat, varint(v).len())),
    decreases v,
{
    reveal_with_fuel(room, 2);
    let bytes = varint(v) + rest;
    if v < 128 {
        assert(bytes[0] == v as u8);
    } else {
        assert(pos < 9);
        assert(bytes[0] == (v % 128 + 128) as u8);
        assert(bytes.drop_first() =~= varint(v / 128) + rest);
        lemma_varint_round_trip_from(v / 128, rest, pos + 1);
    }
}

/// What was encoded is read back, whatever follows it.
pub proof fn lemma_varint_round_trip(v: u64, rest: Seq<u8>)
    ensures
        parse_varint(varint(v) + rest) == Some((v, varint(v).len())),
{
    lemma_room_at_start();
    lemma_varint_round_trip_from(v, rest, 0);
}

} // verus!
