//! Identifiers and small records shared by all resource messages.
use vstd::prelude::*;

verus! {

/// The identifier of a resource, a task or an async operation.
///
/// It is unique among the entities that are live in one monitoring session.
#[derive(Clone, Copy, Debug, PartialEq, Eq, Hash)]
pub struct Id {
    pub id: u64,
}

/// The identifier of a registered metadata record.
#[derive(Clone, Copy, Debug, PartialEq, Eq, Hash)]
pub struct MetaId {
    pub id: u64,
}

/// A point in time: seconds since the Unix epoch and a sub-second part.
#[derive(Clone, Copy, Debug, PartialEq, Eq, Hash)]
pub struct Timestamp {
    pub seconds: i64,
    pub nanos: i32,
}

/// A place in source code.
#[derive(Clone, Debug, PartialEq, Eq)]
pub struct Location {
    pub file: Option<String>,
    pub module: Option<String>,
    pub line: Option<u32>,
    pub column: Option<u32>,
}

/// The value of an attribute.
#[derive(Clone, Debug, PartialEq, Eq)]
pub enum AttributeValue {
    /// A value rendered by its debug representation.
    Debug(String),
    Str(String),
    U64(u64),
    I64(i64),
    Bool(bool),
}

/// A named, typed value that describes the state of a resource.
#[derive(Clone, Debug, PartialEq, Eq)]
pub struct Attribute {
    pub name: String,
    pub value: Option<AttributeValue>,
    pub unit: Option<String>,
}

/// The view of an optional string: its characters, if it is there.
pub open spec fn opt_chars(s: Option<String>) -> Option<Seq<char>> {
    match s {
        Some(s) => Some(s@),
        None => None,
    }
}

/// What a [`Location`] holds.
pub struct LocationView {
    pub file: Option<Seq<char>>,
    pub module: Option<Seq<char>>,
    pub line: Option<u32>,
    pub column: Option<u32>,
}

impl View for Location {
    type V = LocationView;

    open spec fn view(&self) -> LocationView {
        LocationView {
            file: opt_chars(self.file),
            module: opt_chars(self.module),
            line: self.line,
            column: self.column,
        }
    }
}

/// What an [`AttributeValue`] holds.
pub enum AttributeValueView {
    Debug(Seq<char>),
    Str(Seq<char>),
    U64(u64),
    I64(i64),
    Bool(bool),
}

impl View for AttributeValue {
    type V = AttributeValueView;

    open spec fn view(&self) -> AttributeValueView {
        match *self {
            AttributeValue::Debug(s) => AttributeValueView::Debug(s@),
            AttributeValue::Str(s) => AttributeValueView::Str(s@),
            AttributeValue::U64(v) => AttributeValueView::U64(v),
            AttributeValue::I64(v) => AttributeValueView::I64(v),
            AttributeValue::Bool(v) => AttributeValueView::Bool(v),
        }
    }
}

/// What an [`Attribute`] holds.
pub struct AttributeView {
    pub name: Seq<char>,
    pub value: Option<AttributeValueView>,
    pub unit: Option<Seq<char>>,
}

impl View for Attribute {
    type V = AttributeView;

    open spec fn view(&self) -> AttributeView {
        AttributeView {
            name: self.name@,
            value: match self.value {
                Some(v) => Some(v@),
                None => None,
            },
            unit: opt_chars(self.unit),
        }
    }
}

impl View for Id {
    type V = Id;

    open spec fn view(&self) -> Id {
        *self
    }
}

impl View for MetaId {
    type V = MetaId;

    open spec fn view(&self) -> MetaId {
        *self
    }
}

impl View for Timestamp {
    type V = Timestamp;

    open spec fn view(&self) -> Timestamp {
        *self
    }
}

impl Default for Id {
    fn default() -> (r: Id)
        ensures
            r.id == 0,
    {
        Id { id: 0 }
    }
}

impl Default for MetaId {
    fn default() -> (r: MetaId)
        ensures
            r.id == 0,
    {
        MetaId { id: 0 }
    }
}

impl Default for Timestamp {
    fn default() -> (r: Timestamp)
        ensures
            r.seconds == 0,
            r.nanos == 0,
    {
        Timestamp { seconds: 0, nanos: 0 }
    }
}

impl Default for Location {
    fn default() -> (r: Location)
        ensures
            r@ == (LocationView { file: None, module: None, line: None, column: None }),
    {
        Location { file: None, module: None, line: None, column: None }
    }
}

impl Default for Attribute {
    fn default() -> (r: Attribute)
        ensures
            r@ == (AttributeView { name: Seq::empty(), value: None, unit: None }),
    {
        Attribute { name: String::new(), value: None, unit: None }
    }
}

} // verus!
