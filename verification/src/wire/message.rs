//! Messages: how the fields of a message are taken in, one after the other.
use vstd::prelude::*;
use crate::wire::field::{WireField, WireFieldView, decode_fields, parse_fields, views};

verus! {

/// A message that can be read from fields.
///
/// Reading starts from the empty message and takes in one field after the
/// other. A field whose number the message does not know is passed over. A
/// field that does not carry what belongs under its number ends the reading
/// without a message.
pub trait Message: Sized + View {
    /// The message of which nothing is known.
    spec fn empty() -> Self::V;

    /// The message `m` after the field `f` was taken in, or `None` if the
    /// field does not carry what belongs under its number.
    spec fn merge(m: Self::V, f: WireFieldView) -> Option<Self::V>;

    /// The message of which nothing is known.
    fn new_empty() -> (m: Self)
        ensures
            m@ == Self::empty(),
    ;

    /// Takes in one field; returns whether the field carried what belongs
    /// under its number.
    fn merge_field(&mut self, f: &WireField) -> (ok: bool)
        ensures
            match Self::merge(old(self)@, f@) {
                Some(m) => ok && final(self)@ == m,
                None => !ok,
            },
    ;
}

/// The message that the fields make up, if each of them can be taken in.
pub open spec fn fold<M: Message>(fields: Seq<WireFieldView>) -> Option<M::V>
    decreases fields.len(),
{
    if fields.len() == 0 {
        Some(M::empty())
    } else {
        match fold::<M>(fields.drop_last()) {
            Some(m) => M::merge(m, fields.last()),
            None => None,
        }
    }
}

/// The message that the bytes encode, if they encode one.
pub open spec fn parse<M: Message>(bytes: Seq<u8>) -> Option<M::V> {
    match parse_fields(bytes) {
        Some(fields) => fold::<M>(fields),
        None => None,
    }
}

/// Fields and one more make up what the fields make up, with that one
/// field taken in.
pub proof fn lemma_fold_push<M: Message>(fields: Seq<WireFieldView>, f: WireFieldView)
    ensures
        fold::<M>(fields.push(f)) == match fold::<M>(fields) {
            Some(m) => M::merge(m, f),
            None => None,
        },
{
    assert(fields.push(f).drop_last() =~= fields);
}

/// Where the first fields make up no message, all the fields make up none.
pub proof fn lemma_fold_stuck<M: Message>(fields: Seq<WireFieldView>, n: int)
    requires
        0 <= n <= fields.len(),
        fold::<M>(fields.take(n)) is None,
    ensures
        fold::<M>(fields) is None,
    decreases fields.len() - n,
{
    if n < fields.len() {
        assert(fields.take(n + 1).drop_last() =~= fields.take(n));
        lemma_fold_stuck::<M>(fields, n + 1);
    } else {
        assert(fields.take(n) =~= fields);
    }
}

/// The message that the fields make up, or `None` if they make up none.
pub fn from_fields<M: Message>(fields: &Vec<WireField>) -> (res: Option<M>)
    ensures
        match res {
            Some(m) => fold::<M>(views(fields@)) == Some(m@),
            None => fold::<M>(views(fields@)) is None,
        },
{
    let ghost all = views(fields@);
    let mut m = M::new_empty();
    let mut i: usize = 0;
    while i < fields.len()
        invariant
            i <= fields@.len(),
            all == views(fields@),
            fold::<M>(all.take(i as int)) == Some(m@),
        decreases fields@.len() - i,
    {
        proof {
            assert(all.take(i + 1) =~= all.take(i as int).push(fields@[i as int]@));
            lemma_fold_push::<M>(all.take(i as int), fields@[i as int]@);
        }
        if !m.merge_field(&fields[i]) {
            proof {
                lemma_fold_stuck::<M>(all, i + 1);
            }
            return None;
        }
        i += 1;
    }
    assert(all.take(i as int) =~= all);
    Some(m)
}

/// The message that `bytes` encode, or `None` if they encode none.
pub fn decode<M: Message>(bytes: &[u8]) -> (res: Option<M>)
    ensures
        match res {
            Some(m) => parse::<M>(bytes@) == Some(m@),
            None => parse::<M>(bytes@) is None,
        },
{
    match decode_fields(bytes) {
        Some(fields) => from_fields::<M>(&fields),
        None => None,
    }
}

} // verus!
