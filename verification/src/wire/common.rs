//! The encoding of identifiers, times, places and attributes.
use vstd::prelude::*;
use vstd::utf8::{decode_utf8, encode_utf8, encode_utf8_decode_utf8};
use crate::common::{
    Attribute, AttributeValue, AttributeValueView, AttributeView, Id, Location, LocationView,
    MetaId, Timestamp,
};
use crate::wire::field::{
    WireField, WireFieldView, encode_fields, fields_bytes, lemma_fields_round_trip, views,
    well_formed,
};
use crate::wire::message::{Message, decode, fold, lemma_fold_push, parse};
use crate::wire::scalar::{
    as_text, as_varint, bytes_field, encode_text, get_text, get_varint, lemma_i32_round_trip,
    lemma_i64_round_trip, lemma_text_round_trip, lemma_u32_round_trip, new_bytes_field,
    new_text_field, new_varint_field, push_field, push_if, varint_field,
};

verus! {

/// Text whose UTF-8 bytes are none is empty.
pub proof fn lemma_no_bytes_no_text(s: Seq<char>)
    requires
        encode_utf8(s).len() == 0,
    ensures
        s == Seq::<char>::empty(),
{
    encode_utf8_decode_utf8(s);
    assert(encode_utf8(s) =~= Seq::<u8>::empty());
    assert(decode_utf8(Seq::<u8>::empty()) =~= Seq::<char>::empty());
}

impl Message for Id {
    /// The identifier 0.
    open spec fn empty() -> Id {
        Id { id: 0 }
    }

    /// The identifier after one field was taken in. Field 1 must carry a
    /// number; other fields are passed over.
    open spec fn merge(m: Id, f: WireFieldView) -> Option<Id> {
        if f.number == 1 {
            match as_varint(f.value) {
                Some(v) => Some(Id { id: v }),
                None => None,
            }
        } else {
            Some(m)
        }
    }

    fn new_empty() -> (m: Id) {
        Id { id: 0 }
    }

    fn merge_field(&mut self, f: &WireField) -> (ok: bool) {
        if f.number == 1 {
            match get_varint(&f.value) {
                Some(v) => {
                    self.id = v;
                    true
                },
                None => false,
            }
        } else {
            true
        }
    }
}

impl Id {
    /// The fields of the identifier: its number as field 1, unless it is 0.
    pub open spec fn fields(self) -> Seq<WireFieldView> {
        push_if(Seq::empty(), self.id != 0, varint_field(1, self.id))
    }

    /// Whether the identifier can be written; it always can.
    pub open spec fn encodable(self) -> bool {
        well_formed(self.fields())
    }

    /// The bytes of the identifier.
    pub open spec fn wire_bytes(self) -> Seq<u8> {
        fields_bytes(self.fields())
    }

    /// The identifier can always be written, and is read back as it was.
    pub proof fn lemma_round_trip(self)
        ensures
            self.encodable(),
            parse::<Id>(self.wire_bytes()) == Some(self),
    {
        lemma_fold_push::<Id>(Seq::empty(), varint_field(1, self.id));
        lemma_fields_round_trip(self.fields());
    }

    fn to_fields(&self) -> (fs: Vec<WireField>)
        ensures
            views(fs@) == self.fields(),
            well_formed(views(fs@)),
    {
        let mut fs: Vec<WireField> = Vec::new();
        if self.id != 0 {
            fs.push(new_varint_field(1, self.id));
        }
        assert(views(fs@) =~= self.fields());
        fs
    }

    /// The bytes of the identifier.
    pub fn encode_to_vec(&self) -> (bytes: Vec<u8>)
        ensures
            bytes@ == self@.wire_bytes(),
            self@.encodable(),
    {
        encode_fields(&self.to_fields())
    }

    /// The identifier that `bytes` encode, or `None` if they encode none.
    pub fn decode(bytes: &[u8]) -> (res: Option<Id>)
        ensures
            match res {
                Some(m) => parse::<Id>(bytes@) == Some(m@),
                None => parse::<Id>(bytes@) is None,
            },
    {
        decode::<Id>(bytes)
    }
}

impl Message for MetaId {
    /// The metadata identifier 0.
    open spec fn empty() -> MetaId {
        MetaId { id: 0 }
    }

    /// The metadata identifier after one field was taken in. Field 1 must carry a
    /// number; other fields are passed over.
    open spec fn merge(m: MetaId, f: WireFieldView) -> Option<MetaId> {
        if f.number == 1 {
            match as_varint(f.value) {
                Some(v) => Some(MetaId { id: v }),
                None => None,
            }
        } else {
            Some(m)
        }
    }

    fn new_empty() -> (m: MetaId) {
        MetaId { id: 0 }
    }

    fn merge_field(&mut self, f: &WireField) -> (ok: bool) {
        if f.number == 1 {
            match get_varint(&f.value) {
                Some(v) => {
                    self.id = v;
                    true
                },
                None => false,
            }
        } else {
            true
        }
    }
}

impl MetaId {
    /// The fields of the metadata identifier: its number as field 1, unless it is 0.
    pub open spec fn fields(self) -> Seq<WireFieldView> {
        push_if(Seq::empty(), self.id != 0, varint_field(1, self.id))
    }

    /// Whether the metadata identifier can be written; it always can.
    pub open spec fn encodable(self) -> bool {
        well_formed(self.fields())
    }

    /// The bytes of the metadata identifier.
    pub open spec fn wire_bytes(self) -> Seq<u8> {
        fields_bytes(self.fields())
    }

    /// The metadata identifier can always be written, and is read back as it was.
    pub proof fn lemma_round_trip(self)
        ensures
            self.encodable(),
            parse::<MetaId>(self.wire_bytes()) == Some(self),
    {
        lemma_fold_push::<MetaId>(Seq::empty(), varint_field(1, self.id));
        lemma_fields_round_trip(self.fields());
    }

    fn to_fields(&self) -> (fs: Vec<WireField>)
        ensures
            views(fs@) == self.fields(),
            well_formed(views(fs@)),
    {
        let mut fs: Vec<WireField> = Vec::new();
        if self.id != 0 {
            fs.push(new_varint_field(1, self.id));
        }
        assert(views(fs@) =~= self.fields());
        fs
    }

    /// The bytes of the metadata identifier.
    pub fn encode_to_vec(&self) -> (bytes: Vec<u8>)
        ensures
            bytes@ == self@.wire_bytes(),
            self@.encodable(),
    {
        encode_fields(&self.to_fields())
    }

    /// The metadata identifier that `bytes` encode, or `None` if they encode none.
    pub fn decode(bytes: &[u8]) -> (res: Option<MetaId>)
        ensures
            match res {
                Some(m) => parse::<MetaId>(bytes@) == Some(m@),
                None => parse::<MetaId>(bytes@) is None,
            },
    {
        decode::<MetaId>(bytes)
    }
}

impl Message for Timestamp {
    /// The time 0.
    open spec fn empty() -> Timestamp {
        Timestamp { seconds: 0, nanos: 0 }
    }

    /// The time after one field was taken in. Fields 1 and 2 must carry
    /// numbers; other fields are passed over.
    open spec fn merge(m: Timestamp, f: WireFieldView) -> Option<Timestamp> {
        if f.number == 1 {
            match as_varint(f.value) {
                Some(v) => Some(Timestamp { seconds: v as i64, nanos: m.nanos }),
                None => None,
            }
        } else if f.number == 2 {
            match as_varint(f.value) {
                Some(v) => Some(Timestamp { seconds: m.seconds, nanos: v as i32 }),
                None => None,
            }
        } else {
            Some(m)
        }
    }

    fn new_empty() -> (m: Timestamp) {
        Timestamp { seconds: 0, nanos: 0 }
    }

    fn merge_field(&mut self, f: &WireField) -> (ok: bool) {
        if f.number == 1 {
            match get_varint(&f.value) {
                Some(v) => {
                    self.seconds = #[verifier::truncate] (v as i64);
                    true
                },
                None => false,
            }
        } else if f.number == 2 {
            match get_varint(&f.value) {
                Some(v) => {
                    self.nanos = #[verifier::truncate] (v as i32);
                    true
                },
                None => false,
            }
        } else {
            true
        }
    }
}

impl Timestamp {
    /// The fields of the time: the seconds as field 1 and the sub-second
    /// part as field 2, each unless it is 0. A negative number is written
    /// as the unsigned number of the same 64 bits.
    pub open spec fn fields(self) -> Seq<WireFieldView> {
        let s1 = push_if(Seq::empty(), self.seconds != 0, varint_field(1, self.seconds as u64));
        push_if(s1, self.nanos != 0, varint_field(2, (self.nanos as i64) as u64))
    }

    /// Whether the time can be written; it always can.
    pub open spec fn encodable(self) -> bool {
        well_formed(self.fields())
    }

    /// The bytes of the time.
    pub open spec fn wire_bytes(self) -> Seq<u8> {
        fields_bytes(self.fields())
    }

    /// The time can always be written, and is read back as it was.
    pub proof fn lemma_round_trip(self)
        ensures
            self.encodable(),
            parse::<Timestamp>(self.wire_bytes()) == Some(self),
    {
        let f1 = varint_field(1, self.seconds as u64);
        let f2 = varint_field(2, (self.nanos as i64) as u64);
        let s1 = push_if(Seq::empty(), self.seconds != 0, f1);
        lemma_i64_round_trip(self.seconds);
        lemma_i32_round_trip(self.nanos);
        lemma_fold_push::<Timestamp>(Seq::empty(), f1);
        assert(fold::<Timestamp>(s1) == Some(Timestamp { seconds: self.seconds, nanos: 0 }));
        lemma_fold_push::<Timestamp>(s1, f2);
        lemma_fields_round_trip(self.fields());
    }

    fn to_fields(&self) -> (fs: Vec<WireField>)
        ensures
            views(fs@) == self.fields(),
            well_formed(views(fs@)),
    {
        let mut fs: Vec<WireField> = Vec::new();
        if self.seconds != 0 {
            fs.push(new_varint_field(1, #[verifier::truncate] (self.seconds as u64)));
        }
        if self.nanos != 0 {
            fs.push(new_varint_field(2, #[verifier::truncate] ((self.nanos as i64) as u64)));
        }
        assert(views(fs@) =~= self.fields());
        fs
    }

    /// The bytes of the time.
    pub fn encode_to_vec(&self) -> (bytes: Vec<u8>)
        ensures
            bytes@ == self@.wire_bytes(),
            self@.encodable(),
    {
        encode_fields(&self.to_fields())
    }

    /// The time that `bytes` encode, or `None` if they encode none.
    pub fn decode(bytes: &[u8]) -> (res: Option<Timestamp>)
        ensures
            match res {
                Some(m) => parse::<Timestamp>(bytes@) == Some(m@),
                None => parse::<Timestamp>(bytes@) is None,
            },
    {
        decode::<Timestamp>(bytes)
    }
}

impl Message for Location {
    /// The place of which nothing is known.
    open spec fn empty() -> LocationView {
        LocationView { file: None, module: None, line: None, column: None }
    }

    /// The place after one field was taken in. Fields 1 and 2 must carry
    /// text, fields 3 and 4 numbers, of which the low 32 bits count; other
    /// fields are passed over.
    open spec fn merge(m: LocationView, f: WireFieldView) -> Option<LocationView> {
        if f.number == 1 {
            match as_text(f.value) {
                Some(t) => Some(
                    LocationView { file: Some(t), module: m.module, line: m.line, column: m.column },
                ),
                None => None,
            }
        } else if f.number == 2 {
            match as_text(f.value) {
                Some(t) => Some(
                    LocationView { file: m.file, module: Some(t), line: m.line, column: m.column },
                ),
                None => None,
            }
        } else if f.number == 3 {
            match as_varint(f.value) {
                Some(v) => Some(
                    LocationView {
                        file: m.file,
                        module: m.module,
                        line: Some(v as u32),
                        column: m.column,
                    },
                ),
                None => None,
            }
        } else if f.number == 4 {
            match as_varint(f.value) {
                Some(v) => Some(
                    LocationView {
                        file: m.file,
                        module: m.module,
                        line: m.line,
                        column: Some(v as u32),
                    },
                ),
                None => None,
            }
        } else {
            Some(m)
        }
    }

    fn new_empty() -> (m: Location) {
        Location { file: None, module: None, line: None, column: None }
    }

    fn merge_field(&mut self, f: &WireField) -> (ok: bool) {
        if f.number == 1 {
            match get_text(&f.value) {
                Some(t) => {
                    self.file = Some(t);
                    true
                },
                None => false,
            }
        } else if f.number == 2 {
            match get_text(&f.value) {
                Some(t) => {
                    self.module = Some(t);
                    true
                },
                None => false,
            }
        } else if f.number == 3 {
            match get_varint(&f.value) {
                Some(v) => {
                    self.line = Some(#[verifier::truncate] (v as u32));
                    true
                },
                None => false,
            }
        } else if f.number == 4 {
            match get_varint(&f.value) {
                Some(v) => {
                    self.column = Some(#[verifier::truncate] (v as u32));
                    true
                },
                None => false,
            }
        } else {
            true
        }
    }
}

impl LocationView {
    /// The fields of the place: the file as field 1, the module as field
    /// 2, the line as field 3 and the column as field 4, each if it is there.
    pub open spec fn fields(self) -> Seq<WireFieldView> {
        let s1 = push_if(
            Seq::empty(),
            self.file is Some,
            bytes_field(1, encode_utf8(self.file->0)),
        );
        let s2 = push_if(s1, self.module is Some, bytes_field(2, encode_utf8(self.module->0)));
        let s3 = push_if(s2, self.line is Some, varint_field(3, self.line->0 as u64));
        push_if(s3, self.column is Some, varint_field(4, self.column->0 as u64))
    }

    /// Whether the place can be written: its texts are no longer than a
    /// length can say.
    pub open spec fn encodable(self) -> bool {
        well_formed(self.fields())
    }

    /// The bytes of the place.
    pub open spec fn wire_bytes(self) -> Seq<u8> {
        fields_bytes(self.fields())
    }

    /// A place that can be written is read back as it was.
    pub proof fn lemma_round_trip(self)
        requires
            self.encodable(),
        ensures
            parse::<Location>(self.wire_bytes()) == Some(self),
    {
        let f1 = bytes_field(1, encode_utf8(self.file->0));
        let f2 = bytes_field(2, encode_utf8(self.module->0));
        let f3 = varint_field(3, self.line->0 as u64);
        let f4 = varint_field(4, self.column->0 as u64);
        let s1 = push_if(Seq::empty(), self.file is Some, f1);
        let s2 = push_if(s1, self.module is Some, f2);
        let s3 = push_if(s2, self.line is Some, f3);
        if self.file is Some {
            lemma_text_round_trip(self.file->0);
        }
        if self.module is Some {
            lemma_text_round_trip(self.module->0);
        }
        if self.line is Some {
            lemma_u32_round_trip(self.line->0);
        }
        if self.column is Some {
            lemma_u32_round_trip(self.column->0);
        }
        lemma_fold_push::<Location>(Seq::empty(), f1);
        assert(fold::<Location>(s1) == Some(
            LocationView { file: self.file, module: None, line: None, column: None },
        ));
        lemma_fold_push::<Location>(s1, f2);
        assert(fold::<Location>(s2) == Some(
            LocationView { file: self.file, module: self.module, line: None, column: None },
        ));
        lemma_fold_push::<Location>(s2, f3);
        assert(fold::<Location>(s3) == Some(
            LocationView { file: self.file, module: self.module, line: self.line, column: None },
        ));
        lemma_fold_push::<Location>(s3, f4);
        lemma_fields_round_trip(self.fields());
    }
}

impl Location {
    fn to_fields(&self) -> (fs: Vec<WireField>)
        ensures
            views(fs@) == self@.fields(),
            well_formed(views(fs@)),
    {
        let mut fs: Vec<WireField> = Vec::new();
        match &self.file {
            Some(s) => {
                push_field(&mut fs, new_text_field(1, s.as_str()));
            },
            None => {},
        }
        match &self.module {
            Some(s) => {
                push_field(&mut fs, new_text_field(2, s.as_str()));
            },
            None => {},
        }
        match self.line {
            Some(n) => {
                push_field(&mut fs, new_varint_field(3, n as u64));
            },
            None => {},
        }
        match self.column {
            Some(n) => {
                push_field(&mut fs, new_varint_field(4, n as u64));
            },
            None => {},
        }
        assert(views(fs@) =~= self@.fields());
        fs
    }

    /// The bytes of the place.
    pub fn encode_to_vec(&self) -> (bytes: Vec<u8>)
        ensures
            bytes@ == self@.wire_bytes(),
            self@.encodable(),
    {
        encode_fields(&self.to_fields())
    }

    /// The place that `bytes` encode, or `None` if they encode none.
    pub fn decode(bytes: &[u8]) -> (res: Option<Location>)
        ensures
            match res {
                Some(m) => parse::<Location>(bytes@) == Some(m@),
                None => parse::<Location>(bytes@) is None,
            },
    {
        decode::<Location>(bytes)
    }
}

impl AttributeValueView {
    /// The field of the value: debug text as field 2, text as field 3, an
    /// unsigned number as field 4, a signed number as field 5, written as
    /// the unsigned number of the same 64 bits, and a truth value as
    /// field 6, written as 1 or 0.
    pub open spec fn field(self) -> WireFieldView {
        match self {
            AttributeValueView::Debug(t) => bytes_field(2, encode_utf8(t)),
            AttributeValueView::Str(t) => bytes_field(3, encode_utf8(t)),
            AttributeValueView::U64(v) => varint_field(4, v),
            AttributeValueView::I64(v) => varint_field(5, v as u64),
            AttributeValueView::Bool(b) => varint_field(6, if b { 1 } else { 0 }),
        }
    }
}

impl Message for Attribute {
    /// The attribute without a name, a value or a unit.
    open spec fn empty() -> AttributeView {
        AttributeView { name: Seq::empty(), value: None, unit: None }
    }

    /// The attribute after one field was taken in. Fields 1, 2, 3 and 7 must
    /// carry text, fields 4, 5 and 6 numbers; other fields are passed over.
    /// Of several values the last one stays.
    open spec fn merge(m: AttributeView, f: WireFieldView) -> Option<AttributeView> {
        if f.number == 1 {
            match as_text(f.value) {
                Some(t) => Some(AttributeView { name: t, value: m.value, unit: m.unit }),
                None => None,
            }
        } else if f.number == 2 {
            match as_text(f.value) {
                Some(t) => Some(m.with_value(AttributeValueView::Debug(t))),
                None => None,
            }
        } else if f.number == 3 {
            match as_text(f.value) {
                Some(t) => Some(m.with_value(AttributeValueView::Str(t))),
                None => None,
            }
        } else if f.number == 4 {
            match as_varint(f.value) {
                Some(v) => Some(m.with_value(AttributeValueView::U64(v))),
                None => None,
            }
        } else if f.number == 5 {
            match as_varint(f.value) {
                Some(v) => Some(m.with_value(AttributeValueView::I64(v as i64))),
                None => None,
            }
        } else if f.number == 6 {
            match as_varint(f.value) {
                Some(v) => Some(m.with_value(AttributeValueView::Bool(v != 0))),
                None => None,
            }
        } else if f.number == 7 {
            match as_text(f.value) {
                Some(t) => Some(AttributeView { name: m.name, value: m.value, unit: Some(t) }),
                None => None,
            }
        } else {
            Some(m)
        }
    }

    fn new_empty() -> (m: Attribute) {
        Attribute { name: String::new(), value: None, unit: None }
    }

    fn merge_field(&mut self, f: &WireField) -> (ok: bool) {
        if f.number == 1 {
            match get_text(&f.value) {
                Some(t) => {
                    self.name = t;
                    true
                },
                None => false,
            }
        } else if f.number == 2 {
            match get_text(&f.value) {
                Some(t) => {
                    self.value = Some(AttributeValue::Debug(t));
                    true
                },
                None => false,
            }
        } else if f.number == 3 {
            match get_text(&f.value) {
                Some(t) => {
                    self.value = Some(AttributeValue::Str(t));
                    true
                },
                None => false,
            }
        } else if f.number == 4 {
            match get_varint(&f.value) {
                Some(v) => {
                    self.value = Some(AttributeValue::U64(v));
                    true
                },
                None => false,
            }
        } else if f.number == 5 {
            match get_varint(&f.value) {
                Some(v) => {
                    self.value = Some(AttributeValue::I64(#[verifier::truncate] (v as i64)));
                    true
                },
                None => false,
            }
        } else if f.number == 6 {
            match get_varint(&f.value) {
                Some(v) => {
                    self.value = Some(AttributeValue::Bool(v != 0));
                    true
                },
                None => false,
            }
        } else if f.number == 7 {
            match get_text(&f.value) {
                Some(t) => {
                    self.unit = Some(t);
                    true
                },
                None => false,
            }
        } else {
            true
        }
    }
}

impl AttributeView {
    /// The fields of the attribute: the name as field 1, unless it is
    /// empty; the value, if there is one, as one of the fields 2 to 6; and
    /// the unit as field 7, if there is one.
    pub open spec fn fields(self) -> Seq<WireFieldView> {
        let s1 = push_if(
            Seq::empty(),
            encode_utf8(self.name).len() != 0,
            bytes_field(1, encode_utf8(self.name)),
        );
        let s2 = push_if(s1, self.value is Some, self.value->0.field());
        push_if(s2, self.unit is Some, bytes_field(7, encode_utf8(self.unit->0)))
    }

    /// Whether the attribute can be written: its texts are no longer than a
    /// length can say.
    pub open spec fn encodable(self) -> bool {
        well_formed(self.fields())
    }

    /// The same attribute with another value.
    pub open spec fn with_value(self, value: AttributeValueView) -> AttributeView {
        AttributeView { name: self.name, value: Some(value), unit: self.unit }
    }

    /// The bytes of the attribute.
    pub open spec fn wire_bytes(self) -> Seq<u8> {
        fields_bytes(self.fields())
    }

    /// An attribute that can be written is read back as it was.
    pub proof fn lemma_round_trip(self)
        requires
            self.encodable(),
        ensures
            parse::<Attribute>(self.wire_bytes()) == Some(self),
    {
        let f1 = bytes_field(1, encode_utf8(self.name));
        let f2 = self.value->0.field();
        let f3 = bytes_field(7, encode_utf8(self.unit->0));
        let s1 = push_if(Seq::empty(), encode_utf8(self.name).len() != 0, f1);
        let s2 = push_if(s1, self.value is Some, f2);
        lemma_text_round_trip(self.name);
        if encode_utf8(self.name).len() == 0 {
            lemma_no_bytes_no_text(self.name);
        }
        lemma_fold_push::<Attribute>(Seq::empty(), f1);
        assert(fold::<Attribute>(s1) == Some(
            AttributeView { name: self.name, value: None, unit: None },
        ));
        lemma_fold_push::<Attribute>(s1, f2);
        match self.value {
            Some(AttributeValueView::Debug(t)) => {
                lemma_text_round_trip(t);
            },
            Some(AttributeValueView::Str(t)) => {
                lemma_text_round_trip(t);
            },
            Some(AttributeValueView::I64(v)) => {
                lemma_i64_round_trip(v);
            },
            _ => {},
        }
        assert(fold::<Attribute>(s2) == Some(
            AttributeView { name: self.name, value: self.value, unit: None },
        ));
        if self.unit is Some {
            lemma_text_round_trip(self.unit->0);
        }
        lemma_fold_push::<Attribute>(s2, f3);
        lemma_fields_round_trip(self.fields());
    }
}

impl AttributeValue {
    fn to_field(&self) -> (f: WireField)
        ensures
            f@ == self@.field(),
            f@.well_formed(),
    {
        match self {
            AttributeValue::Debug(t) => new_text_field(2, t.as_str()),
            AttributeValue::Str(t) => new_text_field(3, t.as_str()),
            AttributeValue::U64(v) => new_varint_field(4, *v),
            AttributeValue::I64(v) => new_varint_field(5, #[verifier::truncate] (*v as u64)),
            AttributeValue::Bool(b) => new_varint_field(6, if *b { 1 } else { 0 }),
        }
    }
}

impl Attribute {
    fn to_fields(&self) -> (fs: Vec<WireField>)
        ensures
            views(fs@) == self@.fields(),
            well_formed(views(fs@)),
    {
        let mut fs: Vec<WireField> = Vec::new();
        let name = encode_text(self.name.as_str());
        if name.len() != 0 {
            push_field(&mut fs, new_bytes_field(1, name));
        }
        match &self.value {
            Some(v) => {
                push_field(&mut fs, v.to_field());
            },
            None => {},
        }
        match &self.unit {
            Some(s) => {
                push_field(&mut fs, new_text_field(7, s.as_str()));
            },
            None => {},
        }
        assert(views(fs@) =~= self@.fields());
        fs
    }

    /// The bytes of the attribute.
    pub fn encode_to_vec(&self) -> (bytes: Vec<u8>)
        ensures
            bytes@ == self@.wire_bytes(),
            self@.encodable(),
    {
        encode_fields(&self.to_fields())
    }

    /// The attribute that `bytes` encode, or `None` if they encode none.
    pub fn decode(bytes: &[u8]) -> (res: Option<Attribute>)
        ensures
            match res {
                Some(m) => parse::<Attribute>(bytes@) == Some(m@),
                None => parse::<Attribute>(bytes@) is None,
            },
    {
        decode::<Attribute>(bytes)
    }
}

} // verus!
