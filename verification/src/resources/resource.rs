//! The kind of a resource.
use vstd::prelude::*;

pub mod kind;

verus! {

/// The kind of a resource (a timer, a mutex, ...).
///
/// Every resource is of a kind that this version knows, or of another kind
/// that it carries by name.
#[derive(Clone, Debug, PartialEq)]
pub struct Kind {
    pub kind: Option<kind::Kind>,
}

/// What a [`Kind`] holds.
pub struct KindView {
    pub kind: Option<kind::KindView>,
}

impl View for Kind {
    type V = KindView;

    open spec fn view(&self) -> KindView {
        KindView {
            kind: match self.kind {
                Some(k) => Some(k@),
                None => None,
            },
        }
    }
}

impl Kind {
    /// The name of the kind: that of a known kind, or the name that another
    /// kind carries. A kind that is not set, or a number that stands for no
    /// known kind, has no name.
    pub open spec fn spec_name(self) -> Option<Seq<char>> {
        match self.kind {
            Some(k) => k.spec_name(),
            None => None,
        }
    }

    /// The name of the kind, if it has one.
    pub fn name(&self) -> (name: Option<&str>)
        ensures
            name is Some == self.spec_name() is Some,
            name is Some ==> name->0@ == self.spec_name()->0,
    {
        match &self.kind {
            Some(k) => k.name(),
            None => None,
        }
    }

    /// Whether the kind goes by the given name.
    pub fn is_named(&self, name: &str) -> (named: bool)
        ensures
            named == (self.spec_name() == Some(name@)),
    {
        match &self.kind {
            Some(k) => k.is_named(name),
            None => false,
        }
    }
}

impl Default for Kind {
    fn default() -> (r: Kind)
        ensures
            r.kind is None,
    {
        Kind { kind: None }
    }
}

} // verus!
