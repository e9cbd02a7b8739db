//! The kinds that this version knows, and the open-ended escape for others.
use vstd::prelude::*;
use crate::text::str_eq;

verus! {

/// The kinds of resources that this version knows.
#[derive(Clone, Copy, Debug, PartialEq, Eq, Hash, PartialOrd, Ord)]
pub enum Known {
    /// A timer resource, such as one that waits for a sleep to finish.
    Timer,
}

/// A known kind, given by its number, or another kind, given by its name.
#[derive(Clone, Debug, PartialEq)]
pub enum Kind {
    /// A kind that is known, by the number of its [`Known`] value. A number
    /// that a later version assigned is kept as it is.
    Known(i32),
    /// A kind that is not known, by its name.
    Other(String),
}

/// What a [`Kind`] holds.
pub enum KindView {
    Known(i32),
    Other(Seq<char>),
}

impl View for Kind {
    type V = KindView;

    open spec fn view(&self) -> KindView {
        match *self {
            Kind::Known(n) => KindView::Known(n),
            Kind::Other(s) => KindView::Other(s@),
        }
    }
}

impl Known {
    /// The name of the kind in the schema.
    pub open spec fn spec_str_name(self) -> Seq<char> {
        match self {
            Known::Timer => "TIMER"@,
        }
    }

    /// The kind that goes by the given name in the schema, if there is one.
    pub open spec fn spec_from_str_name(value: Seq<char>) -> Option<Known> {
        if value == "TIMER"@ {
            Some(Known::Timer)
        } else {
            None
        }
    }

    /// The number of the kind in the schema.
    pub open spec fn spec_number(self) -> i32 {
        match self {
            Known::Timer => 0,
        }
    }

    /// The kind that has the given number in the schema, if there is one.
    pub open spec fn spec_from_i32(value: i32) -> Option<Known> {
        if value == 0 {
            Some(Known::Timer)
        } else {
            None
        }
    }

    /// The name of the kind as the schema writes it.
    ///
    /// The names are stable as long as the schema is, and fit for use by
    /// programs.
    pub fn as_str_name(&self) -> (name: &'static str)
        ensures
            name@ == self.spec_str_name(),
    {
        match self {
            Known::Timer => "TIMER",
        }
    }

    /// The kind that the schema writes with the given name.
    pub fn from_str_name(value: &str) -> (kind: Option<Known>)
        ensures
            kind == Known::spec_from_str_name(value@),
    {
        if str_eq(value, "TIMER") {
            Some(Known::Timer)
        } else {
            None
        }
    }

    /// The number of the kind in the schema.
    pub fn number(&self) -> (n: i32)
        ensures
            n == self.spec_number(),
    {
        match self {
            Known::Timer => 0,
        }
    }

    /// The kind that has the given number in the schema.
    pub fn from_i32(value: i32) -> (kind: Option<Known>)
        ensures
            kind == Known::spec_from_i32(value),
    {
        if value == 0 {
            Some(Known::Timer)
        } else {
            None
        }
    }

    /// Every known kind is found again by its name.
    pub proof fn lemma_name_round_trip(kind: Known)
        ensures
            Known::spec_from_str_name(kind.spec_str_name()) == Some(kind),
    {
    }

    /// Every known kind is found again by its number.
    pub proof fn lemma_number_round_trip(kind: Known)
        ensures
            Known::spec_from_i32(kind.spec_number()) == Some(kind),
    {
    }
}

impl Kind {
    /// The name of the kind: the schema's name of a known kind, or the name
    /// that another kind carries. A number that stands for no known kind has
    /// no name.
    pub open spec fn spec_name(self) -> Option<Seq<char>> {
        match self {
            Kind::Known(n) => match Known::spec_from_i32(n) {
                Some(k) => Some(k.spec_str_name()),
                None => None,
            },
            Kind::Other(s) => Some(s@),
        }
    }

    /// The name of the kind, if it has one.
    pub fn name(&self) -> (name: Option<&str>)
        ensures
            name is Some == self.spec_name() is Some,
            name is Some ==> name->0@ == self.spec_name()->0,
    {
        match self {
            Kind::Known(n) => match Known::from_i32(*n) {
                Some(k) => Some(k.as_str_name()),
                None => None,
            },
            Kind::Other(s) => Some(s.as_str()),
        }
    }

    /// Whether the kind goes by the given name.
    pub fn is_named(&self, name: &str) -> (named: bool)
        ensures
            named == (self.spec_name() == Some(name@)),
    {
        match self.name() {
            Some(n) => str_eq(n, name),
            None => false,
        }
    }
}

} // verus!
