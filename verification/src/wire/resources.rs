//! The encoding of resources, their stats, poll operations and updates.
use vstd::prelude::*;
use vstd::utf8::encode_utf8;
use crate::common::{Attribute, AttributeView, Id, Location, MetaId, Timestamp};
use crate::keys::keys_of;
use crate::resources::resource::kind::Kind as KindCase;
use crate::resources::resource::kind::KindView as KindCaseView;
use crate::resources::resource::{Kind, KindView};
use crate::resources::{
    PollOp, PollOpView, Resource, ResourceUpdate, ResourceUpdateView, ResourceView, Stats,
    StatsView,
};
use crate::wire::common::lemma_no_bytes_no_text;
use crate::wire::field::{
    WireField, WireFieldView, encode_fields, fields_bytes, lemma_fields_round_trip, views,
    well_formed,
};
use crate::wire::message::{Message, decode, fold, lemma_fold_push, parse};
use crate::wire::scalar::{
    as_bytes, as_text, as_varint, bytes_field, encode_text, get_bytes, get_text, get_varint,
    lemma_i32_round_trip, lemma_text_round_trip, new_bytes_field, new_text_field,
    new_varint_field, push_field, push_if, varint_field,
};

verus! {

broadcast use vstd::std_specs::hash::group_hash_axioms;

impl KindCaseView {
    /// The field of the kind: the number of a known kind as field 1,
    /// widened to 64 bits, or the name of another kind as field 2.
    pub open spec fn field(self) -> WireFieldView {
        match self {
            KindCaseView::Known(n) => varint_field(1, (n as i64) as u64),
            KindCaseView::Other(t) => bytes_field(2, encode_utf8(t)),
        }
    }
}

impl Message for Kind {
    /// The kind that is not set.
    open spec fn empty() -> KindView {
        KindView { kind: None }
    }

    /// The kind after one field was taken in. Field 1 must carry a number,
    /// of which the low 32 bits count, and field 2 text; other fields are
    /// passed over. Of several kinds the last one stays.
    open spec fn merge(m: KindView, f: WireFieldView) -> Option<KindView> {
        if f.number == 1 {
            match as_varint(f.value) {
                Some(v) => Some(KindView { kind: Some(KindCaseView::Known(v as i32)) }),
                None => None,
            }
        } else if f.number == 2 {
            match as_text(f.value) {
                Some(t) => Some(KindView { kind: Some(KindCaseView::Other(t)) }),
                None => None,
            }
        } else {
            Some(m)
        }
    }

    fn new_empty() -> (m: Kind) {
        Kind { kind: None }
    }

    fn merge_field(&mut self, f: &WireField) -> (ok: bool) {
        if f.number == 1 {
            match get_varint(&f.value) {
                Some(v) => {
                    self.kind = Some(KindCase::Known(#[verifier::truncate] (v as i32)));
                    true
                },
                None => false,
            }
        } else if f.number == 2 {
            match get_text(&f.value) {
                Some(t) => {
                    self.kind = Some(KindCase::Other(t));
                    true
                },
                None => false,
            }
        } else {
            true
        }
    }
}

impl KindView {
    /// The fields of the kind: one field if the kind is set, none if not.
    pub open spec fn fields(self) -> Seq<WireFieldView> {
        push_if(Seq::empty(), self.kind is Some, self.kind->0.field())
    }

    /// Whether the kind can be written: its name, if it carries one, is no
    /// longer than a length can say.
    pub open spec fn encodable(self) -> bool {
        well_formed(self.fields())
    }

    /// The bytes of the kind.
    pub open spec fn wire_bytes(self) -> Seq<u8> {
        fields_bytes(self.fields())
    }

    /// A kind that can be written is read back as it was, a kind that
    /// goes by a name of its own with that name.
    pub proof fn lemma_round_trip(self)
        requires
            self.encodable(),
        ensures
            parse::<Kind>(self.wire_bytes()) == Some(self),
    {
        lemma_fold_push::<Kind>(Seq::empty(), self.kind->0.field());
        match self.kind {
            Some(KindCaseView::Known(n)) => {
                lemma_i32_round_trip(n);
            },
            Some(KindCaseView::Other(t)) => {
                lemma_text_round_trip(t);
            },
            None => {},
        }
        lemma_fields_round_trip(self.fields());
    }
}

impl Kind {
    fn to_fields(&self) -> (fs: Vec<WireField>)
        ensures
            views(fs@) == self@.fields(),
            well_formed(views(fs@)),
    {
        let mut fs: Vec<WireField> = Vec::new();
        match &self.kind {
            Some(KindCase::Known(n)) => {
                push_field(&mut fs, new_varint_field(1, #[verifier::truncate] ((*n as i64) as u64)));
            },
            Some(KindCase::Other(t)) => {
                push_field(&mut fs, new_text_field(2, t.as_str()));
            },
            None => {},
        }
        assert(views(fs@) =~= self@.fields());
        fs
    }

    /// The bytes of the kind.
    pub fn encode_to_vec(&self) -> (bytes: Vec<u8>)
        ensures
            bytes@ == self@.wire_bytes(),
            self@.encodable(),
    {
        encode_fields(&self.to_fields())
    }

    /// The kind that `bytes` encode, or `None` if they encode none.
    pub fn decode(bytes: &[u8]) -> (res: Option<Kind>)
        ensures
            match res {
                Some(m) => parse::<Kind>(bytes@) == Some(m@),
                None => parse::<Kind>(bytes@) is None,
            },
    {
        decode::<Kind>(bytes)
    }
}

impl Message for Resource {
    /// The resource of which nothing is known.
    open spec fn empty() -> ResourceView {
        ResourceView {
            id: None,
            metadata: None,
            concrete_type: Seq::empty(),
            kind: None,
            location: None,
            parent_resource_id: None,
            is_internal: false,
        }
    }

    /// The resource after one field was taken in. Fields 1, 2, 4, 5 and 6
    /// must carry the message that belongs there, field 3 text and field 7
    /// a number; other fields are passed over. Of several fields of one
    /// number the last one stays.
    open spec fn merge(m: ResourceView, f: WireFieldView) -> Option<ResourceView> {
        if f.number == 1 {
            match as_bytes(f.value) {
                Some(b) => match parse::<Id>(b) {
                    Some(v) => Some(
                        ResourceView {
                            id: Some(v),
                            metadata: m.metadata,
                            concrete_type: m.concrete_type,
                            kind: m.kind,
                            location: m.location,
                            parent_resource_id: m.parent_resource_id,
                            is_internal: m.is_internal,
                        },
                    ),
                    None => None,
                },
                None => None,
            }
        } else if f.number == 2 {
            match as_bytes(f.value) {
                Some(b) => match parse::<MetaId>(b) {
                    Some(v) => Some(
                        ResourceView {
                            id: m.id,
                            metadata: Some(v),
                            concrete_type: m.concrete_type,
                            kind: m.kind,
                            location: m.location,
                            parent_resource_id: m.parent_resource_id,
                            is_internal: m.is_internal,
                        },
                    ),
                    None => None,
                },
                None => None,
            }
        } else if f.number == 3 {
            match as_text(f.value) {
                Some(t) => Some(
                    ResourceView {
                        id: m.id,
                        metadata: m.metadata,
                        concrete_type: t,
                        kind: m.kind,
                        location: m.location,
                        parent_resource_id: m.parent_resource_id,
                        is_internal: m.is_internal,
                    },
                ),
                None => None,
            }
        } else if f.number == 4 {
            match as_bytes(f.value) {
                Some(b) => match parse::<Kind>(b) {
                    Some(v) => Some(
                        ResourceView {
                            id: m.id,
                            metadata: m.metadata,
                            concrete_type: m.concrete_type,
                            kind: Some(v),
                            location: m.location,
                            parent_resource_id: m.parent_resource_id,
                            is_internal: m.is_internal,
                        },
                    ),
                    None => None,
                },
                None => None,
            }
        } else if f.number == 5 {
            match as_bytes(f.value) {
                Some(b) => match parse::<Location>(b) {
                    Some(v) => Some(
                        ResourceView {
                            id: m.id,
                            metadata: m.metadata,
                            concrete_type: m.concrete_type,
                            kind: m.kind,
                            location: Some(v),
                            parent_resource_id: m.parent_resource_id,
                            is_internal: m.is_internal,
                        },
                    ),
                    None => None,
                },
                None => None,
            }
        } else if f.number == 6 {
            match as_bytes(f.value) {
                Some(b) => match parse::<Id>(b) {
                    Some(v) => Some(
                        ResourceView {
                            id: m.id,
                            metadata: m.metadata,
                            concrete_type: m.concrete_type,
                            kind: m.kind,
                            location: m.location,
                            parent_resource_id: Some(v),
                            is_internal: m.is_internal,
                        },
                    ),
                    None => None,
                },
                None => None,
            }
        } else if f.number == 7 {
            match as_varint(f.value) {
                Some(v) => Some(
                    ResourceView {
                        id: m.id,
                        metadata: m.metadata,
                        concrete_type: m.concrete_type,
                        kind: m.kind,
                        location: m.location,
                        parent_resource_id: m.parent_resource_id,
                        is_internal: v != 0,
                    },
                ),
                None => None,
            }
        } else {
            Some(m)
        }
    }

    fn new_empty() -> (m: Resource) {
        Resource::default()
    }

    fn merge_field(&mut self, f: &WireField) -> (ok: bool) {
        if f.number == 1 {
            match get_bytes(&f.value) {
                Some(b) => match Id::decode(b.as_slice()) {
                    Some(v) => {
                        self.id = Some(v);
                        true
                    },
                    None => false,
                },
                None => false,
            }
        } else if f.number == 2 {
            match get_bytes(&f.value) {
                Some(b) => match MetaId::decode(b.as_slice()) {
                    Some(v) => {
                        self.metadata = Some(v);
                        true
                    },
                    None => false,
                },
                None => false,
            }
        } else if f.number == 3 {
            match get_text(&f.value) {
                Some(t) => {
                    self.concrete_type = t;
                    true
                },
                None => false,
            }
        } else if f.number == 4 {
            match get_bytes(&f.value) {
                Some(b) => match Kind::decode(b.as_slice()) {
                    Some(v) => {
                        self.kind = Some(v);
                        true
                    },
                    None => false,
                },
                None => false,
            }
        } else if f.number == 5 {
            match get_bytes(&f.value) {
                Some(b) => match Location::decode(b.as_slice()) {
                    Some(v) => {
                        self.location = Some(v);
                        true
                    },
                    None => false,
                },
                None => false,
            }
        } else if f.number == 6 {
            match get_bytes(&f.value) {
                Some(b) => match Id::decode(b.as_slice()) {
                    Some(v) => {
                        self.parent_resource_id = Some(v);
                        true
                    },
                    None => false,
                },
                None => false,
            }
        } else if f.number == 7 {
            match get_varint(&f.value) {
                Some(v) => {
                    self.is_internal = v != 0;
                    true
                },
                None => false,
            }
        } else {
            true
        }
    }
}

impl ResourceView {
    /// The fields of the resource: the identifier as field 1, the
    /// metadata identifier as field 2, the concrete type as field 3, the
    /// kind as field 4, the place as field 5, the parent's identifier as
    /// field 6, and field 7 for an internal resource. What is not there,
    /// and text that is empty, has no field.
    pub open spec fn fields(self) -> Seq<WireFieldView> {
        let s1 = push_if(Seq::empty(), self.id is Some, bytes_field(1, self.id->0.wire_bytes()));
        let s2 = push_if(s1, self.metadata is Some, bytes_field(2, self.metadata->0.wire_bytes()));
        let s3 = push_if(
            s2,
            encode_utf8(self.concrete_type).len() != 0,
            bytes_field(3, encode_utf8(self.concrete_type)),
        );
        let s4 = push_if(s3, self.kind is Some, bytes_field(4, self.kind->0.wire_bytes()));
        let s5 = push_if(s4, self.location is Some, bytes_field(5, self.location->0.wire_bytes()));
        let s6 = push_if(
            s5,
            self.parent_resource_id is Some,
            bytes_field(6, self.parent_resource_id->0.wire_bytes()),
        );
        push_if(s6, self.is_internal, varint_field(7, 1))
    }

    /// Whether the resource can be written: none of its parts is longer
    /// than a length can say.
    pub open spec fn encodable(self) -> bool {
        &&& well_formed(self.fields())
        &&& self.kind is Some ==> self.kind->0.encodable()
        &&& self.location is Some ==> self.location->0.encodable()
    }

    /// The message with its first `k` members as they are, and the others
    /// as in the empty message.
    pub open spec fn upto(self, k: int) -> ResourceView {
        ResourceView {
            id: if k >= 1 {
                self.id
            } else {
                None
            },
            metadata: if k >= 2 {
                self.metadata
            } else {
                None
            },
            concrete_type: if k >= 3 {
                self.concrete_type
            } else {
                Seq::empty()
            },
            kind: if k >= 4 {
                self.kind
            } else {
                None
            },
            location: if k >= 5 {
                self.location
            } else {
                None
            },
            parent_resource_id: if k >= 6 {
                self.parent_resource_id
            } else {
                None
            },
            is_internal: if k >= 7 {
                self.is_internal
            } else {
                false
            },
        }
    }

    /// The bytes of the resource.
    pub open spec fn wire_bytes(self) -> Seq<u8> {
        fields_bytes(self.fields())
    }

    /// A resource that can be written is read back as it was.
    pub proof fn lemma_round_trip(self)
        requires
            self.encodable(),
        ensures
            parse::<Resource>(self.wire_bytes()) == Some(self),
    {
        let f1 = bytes_field(1, self.id->0.wire_bytes());
        let f2 = bytes_field(2, self.metadata->0.wire_bytes());
        let f3 = bytes_field(3, encode_utf8(self.concrete_type));
        let f4 = bytes_field(4, self.kind->0.wire_bytes());
        let f5 = bytes_field(5, self.location->0.wire_bytes());
        let f6 = bytes_field(6, self.parent_resource_id->0.wire_bytes());
        let f7 = varint_field(7, 1);
        let s1 = push_if(Seq::empty(), self.id is Some, f1);
        let s2 = push_if(s1, self.metadata is Some, f2);
        let s3 = push_if(s2, encode_utf8(self.concrete_type).len() != 0, f3);
        let s4 = push_if(s3, self.kind is Some, f4);
        let s5 = push_if(s4, self.location is Some, f5);
        let s6 = push_if(s5, self.parent_resource_id is Some, f6);
        assert(self.upto(0) == Resource::empty());
        if self.id is Some {
            self.id->0.lemma_round_trip();
        }
        lemma_fold_push::<Resource>(Seq::empty(), f1);
        assert(fold::<Resource>(s1) == Some(self.upto(1)));
        if self.metadata is Some {
            self.metadata->0.lemma_round_trip();
        }
        lemma_fold_push::<Resource>(s1, f2);
        assert(fold::<Resource>(s2) == Some(self.upto(2)));
        lemma_text_round_trip(self.concrete_type);
        if encode_utf8(self.concrete_type).len() == 0 {
            lemma_no_bytes_no_text(self.concrete_type);
        }
        lemma_fold_push::<Resource>(s2, f3);
        assert(fold::<Resource>(s3) == Some(self.upto(3)));
        if self.kind is Some {
            self.kind->0.lemma_round_trip();
        }
        lemma_fold_push::<Resource>(s3, f4);
        assert(fold::<Resource>(s4) == Some(self.upto(4)));
        if self.location is Some {
            self.location->0.lemma_round_trip();
        }
        lemma_fold_push::<Resource>(s4, f5);
        assert(fold::<Resource>(s5) == Some(self.upto(5)));
        if self.parent_resource_id is Some {
            self.parent_resource_id->0.lemma_round_trip();
        }
        lemma_fold_push::<Resource>(s5, f6);
        assert(fold::<Resource>(s6) == Some(self.upto(6)));
        lemma_fold_push::<Resource>(s6, f7);
        assert(self.upto(7) == self);
        lemma_fields_round_trip(self.fields());
    }
}

impl Resource {
    fn to_fields(&self) -> (fs: Vec<WireField>)
        ensures
            views(fs@) == self@.fields(),
            well_formed(views(fs@)),
            self@.encodable(),
    {
        let mut fs: Vec<WireField> = Vec::new();
        match &self.id {
            Some(v) => {
                push_field(&mut fs, new_bytes_field(1, v.encode_to_vec()));
            },
            None => {},
        }
        match &self.metadata {
            Some(v) => {
                push_field(&mut fs, new_bytes_field(2, v.encode_to_vec()));
            },
            None => {},
        }
        let concrete_type = encode_text(self.concrete_type.as_str());
        if concrete_type.len() != 0 {
            push_field(&mut fs, new_bytes_field(3, concrete_type));
        }
        match &self.kind {
            Some(v) => {
                push_field(&mut fs, new_bytes_field(4, v.encode_to_vec()));
            },
            None => {},
        }
        match &self.location {
            Some(v) => {
                push_field(&mut fs, new_bytes_field(5, v.encode_to_vec()));
            },
            None => {},
        }
        match &self.parent_resource_id {
            Some(v) => {
                push_field(&mut fs, new_bytes_field(6, v.encode_to_vec()));
            },
            None => {},
        }
        if self.is_internal {
            push_field(&mut fs, new_varint_field(7, 1));
        }
        assert(views(fs@) =~= self@.fields());
        fs
    }

    /// The bytes of the resource.
    pub fn encode_to_vec(&self) -> (bytes: Vec<u8>)
        ensures
            bytes@ == self@.wire_bytes(),
            self@.encodable(),
    {
        encode_fields(&self.to_fields())
    }

    /// The resource that `bytes` encode, or `None` if they encode none.
    pub fn decode(bytes: &[u8]) -> (res: Option<Resource>)
        ensures
            match res {
                Some(m) => parse::<Resource>(bytes@) == Some(m@),
                None => parse::<Resource>(bytes@) is None,
            },
    {
        decode::<Resource>(bytes)
    }
}

impl Message for PollOp {
    /// The poll operation of which nothing is known.
    open spec fn empty() -> PollOpView {
        PollOpView {
            metadata: None,
            resource_id: None,
            name: Seq::empty(),
            task_id: None,
            async_op_id: None,
            is_ready: false,
        }
    }

    /// The poll operation after one field was taken in. Fields 2, 3, 5 and
    /// 6 must carry the identifier that belongs there, field 4 text and
    /// field 7 a number; other fields are passed over.
    open spec fn merge(m: PollOpView, f: WireFieldView) -> Option<PollOpView> {
        if f.number == 2 {
            match as_bytes(f.value) {
                Some(b) => match parse::<MetaId>(b) {
                    Some(v) => Some(
                        PollOpView {
                            metadata: Some(v),
                            resource_id: m.resource_id,
                            name: m.name,
                            task_id: m.task_id,
                            async_op_id: m.async_op_id,
                            is_ready: m.is_ready,
                        },
                    ),
                    None => None,
                },
                None => None,
            }
        } else if f.number == 3 {
            match as_bytes(f.value) {
                Some(b) => match parse::<Id>(b) {
                    Some(v) => Some(
                        PollOpView {
                            metadata: m.metadata,
                            resource_id: Some(v),
                            name: m.name,
                            task_id: m.task_id,
                            async_op_id: m.async_op_id,
                            is_ready: m.is_ready,
                        },
                    ),
                    None => None,
                },
                None => None,
            }
        } else if f.number == 4 {
            match as_text(f.value) {
                Some(t) => Some(
                    PollOpView {
                        metadata: m.metadata,
                        resource_id: m.resource_id,
                        name: t,
                        task_id: m.task_id,
                        async_op_id: m.async_op_id,
                        is_ready: m.is_ready,
                    },
                ),
                None => None,
            }
        } else if f.number == 5 {
            match as_bytes(f.value) {
                Some(b) => match parse::<Id>(b) {
                    Some(v) => Some(
                        PollOpView {
                            metadata: m.metadata,
                            resource_id: m.resource_id,
                            name: m.name,
                            task_id: Some(v),
                            async_op_id: m.async_op_id,
                            is_ready: m.is_ready,
                        },
                    ),
                    None => None,
                },
                None => None,
            }
        } else if f.number == 6 {
            match as_bytes(f.value) {
                Some(b) => match parse::<Id>(b) {
                    Some(v) => Some(
                        PollOpView {
                            metadata: m.metadata,
                            resource_id: m.resource_id,
                            name: m.name,
                            task_id: m.task_id,
                            async_op_id: Some(v),
                            is_ready: m.is_ready,
                        },
                    ),
                    None => None,
                },
                None => None,
            }
        } else if f.number == 7 {
            match as_varint(f.value) {
                Some(v) => Some(
                    PollOpView {
                        metadata: m.metadata,
                        resource_id: m.resource_id,
                        name: m.name,
                        task_id: m.task_id,
                        async_op_id: m.async_op_id,
                        is_ready: v != 0,
                    },
                ),
                None => None,
            }
        } else {
            Some(m)
        }
    }

    fn new_empty() -> (m: PollOp) {
        PollOp::default()
    }

    fn merge_field(&mut self, f: &WireField) -> (ok: bool) {
        if f.number == 2 {
            match get_bytes(&f.value) {
                Some(b) => match MetaId::decode(b.as_slice()) {
                    Some(v) => {
                        self.metadata = Some(v);
                        true
                    },
                    None => false,
                },
                None => false,
            }
        } else if f.number == 3 {
            match get_bytes(&f.value) {
                Some(b) => match Id::decode(b.as_slice()) {
                    Some(v) => {
                        self.resource_id = Some(v);
                        true
                    },
                    None => false,
                },
                None => false,
            }
        } else if f.number == 4 {
            match get_text(&f.value) {
                Some(t) => {
                    self.name = t;
                    true
                },
                None => false,
            }
        } else if f.number == 5 {
            match get_bytes(&f.value) {
                Some(b) => match Id::decode(b.as_slice()) {
                    Some(v) => {
                        self.task_id = Some(v);
                        true
                    },
                    None => false,
                },
                None => false,
            }
        } else if f.number == 6 {
            match get_bytes(&f.value) {
                Some(b) => match Id::decode(b.as_slice()) {
                    Some(v) => {
                        self.async_op_id = Some(v);
                        true
                    },
                    None => false,
                },
                None => false,
            }
        } else if f.number == 7 {
            match get_varint(&f.value) {
                Some(v) => {
                    self.is_ready = v != 0;
                    true
                },
                None => false,
            }
        } else {
            true
        }
    }
}

impl PollOpView {
    /// The fields of the poll operation: the metadata identifier as field
    /// 2, the resource as field 3, the name as field 4, the task as field 5,
    /// the async operation as field 6, and field 7 for a poll that was
    /// ready. What is not there, and a name that is empty, has no field.
    pub open spec fn fields(self) -> Seq<WireFieldView> {
        let s1 = push_if(
            Seq::empty(),
            self.metadata is Some,
            bytes_field(2, self.metadata->0.wire_bytes()),
        );
        let s2 = push_if(
            s1,
            self.resource_id is Some,
            bytes_field(3, self.resource_id->0.wire_bytes()),
        );
        let s3 = push_if(
            s2,
            encode_utf8(self.name).len() != 0,
            bytes_field(4, encode_utf8(self.name)),
        );
        let s4 = push_if(s3, self.task_id is Some, bytes_field(5, self.task_id->0.wire_bytes()));
        let s5 = push_if(
            s4,
            self.async_op_id is Some,
            bytes_field(6, self.async_op_id->0.wire_bytes()),
        );
        push_if(s5, self.is_ready, varint_field(7, 1))
    }

    /// Whether the poll operation can be written: its name is no longer than
    /// a length can say.
    pub open spec fn encodable(self) -> bool {
        well_formed(self.fields())
    }

    /// The message with its first `k` members as they are, and the others
    /// as in the empty message.
    pub open spec fn upto(self, k: int) -> PollOpView {
        PollOpView {
            metadata: if k >= 1 {
                self.metadata
            } else {
                None
            },
            resource_id: if k >= 2 {
                self.resource_id
            } else {
                None
            },
            name: if k >= 3 {
                self.name
            } else {
                Seq::empty()
            },
            task_id: if k >= 4 {
                self.task_id
            } else {
                None
            },
            async_op_id: if k >= 5 {
                self.async_op_id
            } else {
                None
            },
            is_ready: if k >= 6 {
                self.is_ready
            } else {
                false
            },
        }
    }

    /// The bytes of the poll operation.
    pub open spec fn wire_bytes(self) -> Seq<u8> {
        fields_bytes(self.fields())
    }

    /// A poll operation that can be written is read back as it was.
    pub proof fn lemma_round_trip(self)
        requires
            self.encodable(),
        ensures
            parse::<PollOp>(self.wire_bytes()) == Some(self),
    {
        let f1 = bytes_field(2, self.metadata->0.wire_bytes());
        let f2 = bytes_field(3, self.resource_id->0.wire_bytes());
        let f3 = bytes_field(4, encode_utf8(self.name));
        let f4 = bytes_field(5, self.task_id->0.wire_bytes());
        let f5 = bytes_field(6, self.async_op_id->0.wire_bytes());
        let f6 = varint_field(7, 1);
        let s1 = push_if(Seq::empty(), self.metadata is Some, f1);
        let s2 = push_if(s1, self.resource_id is Some, f2);
        let s3 = push_if(s2, encode_utf8(self.name).len() != 0, f3);
        let s4 = push_if(s3, self.task_id is Some, f4);
        let s5 = push_if(s4, self.async_op_id is Some, f5);
        assert(self.upto(0) == PollOp::empty());
        if self.metadata is Some {
            self.metadata->0.lemma_round_trip();
        }
        lemma_fold_push::<PollOp>(Seq::empty(), f1);
        assert(fold::<PollOp>(s1) == Some(self.upto(1)));
        if self.resource_id is Some {
            self.resource_id->0.lemma_round_trip();
        }
        lemma_fold_push::<PollOp>(s1, f2);
        assert(fold::<PollOp>(s2) == Some(self.upto(2)));
        lemma_text_round_trip(self.name);
        if encode_utf8(self.name).len() == 0 {
            lemma_no_bytes_no_text(self.name);
        }
        lemma_fold_push::<PollOp>(s2, f3);
        assert(fold::<PollOp>(s3) == Some(self.upto(3)));
        if self.task_id is Some {
            self.task_id->0.lemma_round_trip();
        }
        lemma_fold_push::<PollOp>(s3, f4);
        assert(fold::<PollOp>(s4) == Some(self.upto(4)));
        if self.async_op_id is Some {
            self.async_op_id->0.lemma_round_trip();
        }
        lemma_fold_push::<PollOp>(s4, f5);
        assert(fold::<PollOp>(s5) == Some(self.upto(5)));
        lemma_fold_push::<PollOp>(s5, f6);
        assert(self.upto(6) == self);
        lemma_fields_round_trip(self.fields());
    }
}

impl PollOp {
    fn to_fields(&self) -> (fs: Vec<WireField>)
        ensures
            views(fs@) == self@.fields(),
            well_formed(views(fs@)),
    {
        let mut fs: Vec<WireField> = Vec::new();
        match &self.metadata {
            Some(v) => {
                push_field(&mut fs, new_bytes_field(2, v.encode_to_vec()));
            },
            None => {},
        }
        match &self.resource_id {
            Some(v) => {
                push_field(&mut fs, new_bytes_field(3, v.encode_to_vec()));
            },
            None => {},
        }
        let name = encode_text(self.name.as_str());
        if name.len() != 0 {
            push_field(&mut fs, new_bytes_field(4, name));
        }
        match &self.task_id {
            Some(v) => {
                push_field(&mut fs, new_bytes_field(5, v.encode_to_vec()));
            },
            None => {},
        }
        match &self.async_op_id {
            Some(v) => {
                push_field(&mut fs, new_bytes_field(6, v.encode_to_vec()));
            },
            None => {},
        }
        if self.is_ready {
            push_field(&mut fs, new_varint_field(7, 1));
        }
        assert(views(fs@) =~= self@.fields());
        fs
    }

    /// The bytes of the poll operation.
    pub fn encode_to_vec(&self) -> (bytes: Vec<u8>)
        ensures
            bytes@ == self@.wire_bytes(),
            self@.encodable(),
    {
        encode_fields(&self.to_fields())
    }

    /// The poll operation that `bytes` encode, or `None` if they encode none.
    pub fn decode(bytes: &[u8]) -> (res: Option<PollOp>)
        ensures
            match res {
                Some(m) => parse::<PollOp>(bytes@) == Some(m@),
                None => parse::<PollOp>(bytes@) is None,
            },
    {
        decode::<PollOp>(bytes)
    }
}

impl Message for Stats {
    /// The stats of which nothing is known.
    open spec fn empty() -> StatsView {
        StatsView { created_at: None, dropped_at: None, attributes: Seq::empty() }
    }

    /// The stats after one field was taken in. Fields 1 and 2 must carry a
    /// time, of which the last one stays; each field 3 must carry an
    /// attribute, which joins the others; other fields are passed over.
    open spec fn merge(m: StatsView, f: WireFieldView) -> Option<StatsView> {
        if f.number == 1 {
            match as_bytes(f.value) {
                Some(b) => match parse::<Timestamp>(b) {
                    Some(v) => Some(
                        StatsView {
                            created_at: Some(v),
                            dropped_at: m.dropped_at,
                            attributes: m.attributes,
                        },
                    ),
                    None => None,
                },
                None => None,
            }
        } else if f.number == 2 {
            match as_bytes(f.value) {
                Some(b) => match parse::<Timestamp>(b) {
                    Some(v) => Some(
                        StatsView {
                            created_at: m.created_at,
                            dropped_at: Some(v),
                            attributes: m.attributes,
                        },
                    ),
                    None => None,
                },
                None => None,
            }
        } else if f.number == 3 {
            match as_bytes(f.value) {
                Some(b) => match parse::<Attribute>(b) {
                    Some(v) => Some(
                        StatsView {
                            created_at: m.created_at,
                            dropped_at: m.dropped_at,
                            attributes: m.attributes.push(v),
                        },
                    ),
                    None => None,
                },
                None => None,
            }
        } else {
            Some(m)
        }
    }

    fn new_empty() -> (m: Stats) {
        Stats::default()
    }

    fn merge_field(&mut self, f: &WireField) -> (ok: bool) {
        if f.number == 1 {
            match get_bytes(&f.value) {
                Some(b) => match Timestamp::decode(b.as_slice()) {
                    Some(v) => {
                        self.created_at = Some(v);
                        true
                    },
                    None => false,
                },
                None => false,
            }
        } else if f.number == 2 {
            match get_bytes(&f.value) {
                Some(b) => match Timestamp::decode(b.as_slice()) {
                    Some(v) => {
                        self.dropped_at = Some(v);
                        true
                    },
                    None => false,
                },
                None => false,
            }
        } else if f.number == 3 {
            match get_bytes(&f.value) {
                Some(b) => match Attribute::decode(b.as_slice()) {
                    Some(v) => {
                        self.attributes.push(v);
                        assert(self@.attributes =~= old(self)@.attributes.push(v@));
                        true
                    },
                    None => false,
                },
                None => false,
            }
        } else {
            true
        }
    }
}

impl StatsView {
    /// The fields `s`, and after them one field 3 for each of the
    /// attributes, in order.
    pub open spec fn attribute_fields(
        s: Seq<WireFieldView>,
        items: Seq<AttributeView>,
    ) -> Seq<WireFieldView>
        decreases items.len(),
    {
        if items.len() == 0 {
            s
        } else {
            Self::attribute_fields(s, items.drop_last()).push(
                bytes_field(3, items.last().wire_bytes()),
            )
        }
    }

    /// The fields of the stats: the time of creation as field 1 and the
    /// time of the drop as field 2, each if it is there, and one field 3
    /// for each attribute, in order.
    pub open spec fn fields(self) -> Seq<WireFieldView> {
        let s1 = push_if(
            Seq::empty(),
            self.created_at is Some,
            bytes_field(1, self.created_at->0.wire_bytes()),
        );
        let s2 = push_if(
            s1,
            self.dropped_at is Some,
            bytes_field(2, self.dropped_at->0.wire_bytes()),
        );
        Self::attribute_fields(s2, self.attributes)
    }

    /// Whether the stats can be written: no attribute, and none of its
    /// parts, is longer than a length can say.
    pub open spec fn encodable(self) -> bool {
        &&& well_formed(self.fields())
        &&& forall|i: int|
            0 <= i < self.attributes.len() ==> (#[trigger] self.attributes[i]).encodable()
    }

    /// The bytes of the stats.
    pub open spec fn wire_bytes(self) -> Seq<u8> {
        fields_bytes(self.fields())
    }

    /// Fields that make up stats, and after them the fields of attributes,
    /// make up the stats with these attributes behind those that they had.
    pub proof fn lemma_fold_attributes(
        s: Seq<WireFieldView>,
        items: Seq<AttributeView>,
        m0: StatsView,
    )
        requires
            fold::<Stats>(s) == Some(m0),
            forall|i: int| 0 <= i < items.len() ==> (#[trigger] items[i]).encodable(),
        ensures
            fold::<Stats>(Self::attribute_fields(s, items)) == Some(
                StatsView {
                    created_at: m0.created_at,
                    dropped_at: m0.dropped_at,
                    attributes: m0.attributes + items,
                },
            ),
        decreases items.len(),
    {
        if items.len() == 0 {
            assert(m0.attributes + items =~= m0.attributes);
        } else {
            let front = items.drop_last();
            Self::lemma_fold_attributes(s, front, m0);
            let f = bytes_field(3, items.last().wire_bytes());
            lemma_fold_push::<Stats>(Self::attribute_fields(s, front), f);
            items.last().lemma_round_trip();
            assert((m0.attributes + front).push(items.last()) =~= m0.attributes + items);
        }
    }

    /// Stats that can be written are read back as they were.
    pub proof fn lemma_round_trip(self)
        requires
            self.encodable(),
        ensures
            parse::<Stats>(self.wire_bytes()) == Some(self),
    {
        let f1 = bytes_field(1, self.created_at->0.wire_bytes());
        let f2 = bytes_field(2, self.dropped_at->0.wire_bytes());
        let s1 = push_if(Seq::empty(), self.created_at is Some, f1);
        let s2 = push_if(s1, self.dropped_at is Some, f2);
        if self.created_at is Some {
            self.created_at->0.lemma_round_trip();
        }
        lemma_fold_push::<Stats>(Seq::empty(), f1);
        assert(fold::<Stats>(s1) == Some(
            StatsView { created_at: self.created_at, dropped_at: None, attributes: Seq::empty() },
        ));
        if self.dropped_at is Some {
            self.dropped_at->0.lemma_round_trip();
        }
        lemma_fold_push::<Stats>(s1, f2);
        let m2 = StatsView {
            created_at: self.created_at,
            dropped_at: self.dropped_at,
            attributes: Seq::empty(),
        };
        assert(fold::<Stats>(s2) == Some(m2));
        Self::lemma_fold_attributes(s2, self.attributes, m2);
        assert(m2.attributes + self.attributes =~= self.attributes);
        lemma_fields_round_trip(self.fields());
    }
}

impl Stats {
    fn to_fields(&self) -> (fs: Vec<WireField>)
        ensures
            views(fs@) == self@.fields(),
            well_formed(views(fs@)),
            self@.encodable(),
    {
        let mut fs: Vec<WireField> = Vec::new();
        match &self.created_at {
            Some(v) => {
                push_field(&mut fs, new_bytes_field(1, v.encode_to_vec()));
            },
            None => {},
        }
        match &self.dropped_at {
            Some(v) => {
                push_field(&mut fs, new_bytes_field(2, v.encode_to_vec()));
            },
            None => {},
        }
        let ghost s2 = views(fs@);
        let ghost items = self@.attributes;
        assert(s2 =~= push_if(
            push_if(
                Seq::empty(),
                self@.created_at is Some,
                bytes_field(1, self@.created_at->0.wire_bytes()),
            ),
            self@.dropped_at is Some,
            bytes_field(2, self@.dropped_at->0.wire_bytes()),
        ));
        let mut i: usize = 0;
        while i < self.attributes.len()
            invariant
                i <= self.attributes@.len(),
                items == self@.attributes,
                views(fs@) == StatsView::attribute_fields(s2, items.take(i as int)),
                well_formed(views(fs@)),
                forall|j: int| 0 <= j < i ==> (#[trigger] items[j]).encodable(),
            decreases self.attributes@.len() - i,
        {
            let bytes = self.attributes[i].encode_to_vec();
            push_field(&mut fs, new_bytes_field(3, bytes));
            proof {
                assert(items.take(i + 1).drop_last() =~= items.take(i as int));
                assert(items.take(i + 1).last() == self.attributes@[i as int]@);
            }
            i += 1;
        }
        assert(items.take(i as int) =~= items);
        fs
    }

    /// The bytes of the stats.
    pub fn encode_to_vec(&self) -> (bytes: Vec<u8>)
        ensures
            bytes@ == self@.wire_bytes(),
            self@.encodable(),
    {
        encode_fields(&self.to_fields())
    }

    /// The stats that `bytes` encode, or `None` if they encode none.
    pub fn decode(bytes: &[u8]) -> (res: Option<Stats>)
        ensures
            match res {
                Some(m) => parse::<Stats>(bytes@) == Some(m@),
                None => parse::<Stats>(bytes@) is None,
            },
    {
        decode::<Stats>(bytes)
    }
}

/// One entry of the stats that an update brings: the identifier of a
/// resource and its stats.
#[derive(Clone, Debug, PartialEq)]
pub struct StatsEntry {
    pub key: u64,
    pub value: Stats,
}

/// What a [`StatsEntry`] holds.
pub struct StatsEntryView {
    pub key: u64,
    pub value: StatsView,
}

impl View for StatsEntry {
    type V = StatsEntryView;

    open spec fn view(&self) -> StatsEntryView {
        StatsEntryView { key: self.key, value: self.value@ }
    }
}

impl Message for StatsEntry {
    /// The entry for resource 0 with stats of which nothing is known.
    open spec fn empty() -> StatsEntryView {
        StatsEntryView { key: 0, value: Stats::empty() }
    }

    /// The entry after one field was taken in. Field 1 must carry a number
    /// and field 2 stats; other fields are passed over.
    open spec fn merge(m: StatsEntryView, f: WireFieldView) -> Option<StatsEntryView> {
        if f.number == 1 {
            match as_varint(f.value) {
                Some(v) => Some(StatsEntryView { key: v, value: m.value }),
                None => None,
            }
        } else if f.number == 2 {
            match as_bytes(f.value) {
                Some(b) => match parse::<Stats>(b) {
                    Some(v) => Some(StatsEntryView { key: m.key, value: v }),
                    None => None,
                },
                None => None,
            }
        } else {
            Some(m)
        }
    }

    fn new_empty() -> (m: StatsEntry) {
        StatsEntry { key: 0, value: Stats::default() }
    }

    fn merge_field(&mut self, f: &WireField) -> (ok: bool) {
        if f.number == 1 {
            match get_varint(&f.value) {
                Some(v) => {
                    self.key = v;
                    true
                },
                None => false,
            }
        } else if f.number == 2 {
            match get_bytes(&f.value) {
                Some(b) => match Stats::decode(b.as_slice()) {
                    Some(v) => {
                        self.value = v;
                        true
                    },
                    None => false,
                },
                None => false,
            }
        } else {
            true
        }
    }
}

impl StatsEntryView {
    /// The fields of the entry: the identifier as field 1, unless it is 0,
    /// and the stats as field 2.
    pub open spec fn fields(self) -> Seq<WireFieldView> {
        push_if(Seq::empty(), self.key != 0, varint_field(1, self.key)).push(
            bytes_field(2, self.value.wire_bytes()),
        )
    }

    /// Whether the entry can be written: its stats can, and are no longer
    /// than a length can say.
    pub open spec fn encodable(self) -> bool {
        &&& well_formed(self.fields())
        &&& self.value.encodable()
    }

    /// The bytes of the entry.
    pub open spec fn wire_bytes(self) -> Seq<u8> {
        fields_bytes(self.fields())
    }

    /// An entry that can be written is read back as it was.
    pub proof fn lemma_round_trip(self)
        requires
            self.encodable(),
        ensures
            parse::<StatsEntry>(self.wire_bytes()) == Some(self),
    {
        let f1 = varint_field(1, self.key);
        let f2 = bytes_field(2, self.value.wire_bytes());
        let s1 = push_if(Seq::empty(), self.key != 0, f1);
        lemma_fold_push::<StatsEntry>(Seq::empty(), f1);
        assert(fold::<StatsEntry>(s1) == Some(
            StatsEntryView { key: self.key, value: Stats::empty() },
        ));
        self.value.lemma_round_trip();
        lemma_fold_push::<StatsEntry>(s1, f2);
        lemma_fields_round_trip(self.fields());
    }
}

/// The bytes of the entry that gives resource `key` the stats `value`.
pub fn entry_bytes(key: u64, value: &Stats) -> (bytes: Vec<u8>)
    ensures
        bytes@ == (StatsEntryView { key, value: value@ }).wire_bytes(),
        (StatsEntryView { key, value: value@ }).encodable(),
{
    let mut fs: Vec<WireField> = Vec::new();
    if key != 0 {
        push_field(&mut fs, new_varint_field(1, key));
    }
    push_field(&mut fs, new_bytes_field(2, value.encode_to_vec()));
    assert(views(fs@) =~= (StatsEntryView { key, value: value@ }).fields());
    encode_fields(&fs)
}

impl StatsEntry {
    /// The entry that `bytes` encode, or `None` if they encode none.
    pub fn decode(bytes: &[u8]) -> (res: Option<StatsEntry>)
        ensures
            match res {
                Some(m) => parse::<StatsEntry>(bytes@) == Some(m@),
                None => parse::<StatsEntry>(bytes@) is None,
            },
    {
        decode::<StatsEntry>(bytes)
    }

    /// The bytes of the entry.
    pub fn encode_to_vec(&self) -> (bytes: Vec<u8>)
        ensures
            bytes@ == self@.wire_bytes(),
            self@.encodable(),
    {
        entry_bytes(self.key, &self.value)
    }
}

impl Message for ResourceUpdate {
    /// The update that brings nothing.
    open spec fn empty() -> ResourceUpdateView {
        ResourceUpdateView {
            new_resources: Seq::empty(),
            stats_update: Map::empty(),
            new_poll_ops: Seq::empty(),
            dropped_events: 0,
        }
    }

    /// The update after one field was taken in. Each field 1 must carry a
    /// resource and each field 3 a poll operation, which join the others;
    /// each field 2 must carry an entry, whose stats replace those held for
    /// its resource; field 4 must carry a number; other fields are passed over.
    open spec fn merge(m: ResourceUpdateView, f: WireFieldView) -> Option<ResourceUpdateView> {
        if f.number == 1 {
            match as_bytes(f.value) {
                Some(b) => match parse::<Resource>(b) {
                    Some(v) => Some(
                        ResourceUpdateView {
                            new_resources: m.new_resources.push(v),
                            stats_update: m.stats_update,
                            new_poll_ops: m.new_poll_ops,
                            dropped_events: m.dropped_events,
                        },
                    ),
                    None => None,
                },
                None => None,
            }
        } else if f.number == 2 {
            match as_bytes(f.value) {
                Some(b) => match parse::<StatsEntry>(b) {
                    Some(e) => Some(
                        ResourceUpdateView {
                            new_resources: m.new_resources,
                            stats_update: m.stats_update.insert(e.key, e.value),
                            new_poll_ops: m.new_poll_ops,
                            dropped_events: m.dropped_events,
                        },
                    ),
                    None => None,
                },
                None => None,
            }
        } else if f.number == 3 {
            match as_bytes(f.value) {
                Some(b) => match parse::<PollOp>(b) {
                    Some(v) => Some(
                        ResourceUpdateView {
                            new_resources: m.new_resources,
                            stats_update: m.stats_update,
                            new_poll_ops: m.new_poll_ops.push(v),
                            dropped_events: m.dropped_events,
                        },
                    ),
                    None => None,
                },
                None => None,
            }
        } else if f.number == 4 {
            match as_varint(f.value) {
                Some(v) => Some(
                    ResourceUpdateView {
                        new_resources: m.new_resources,
                        stats_update: m.stats_update,
                        new_poll_ops: m.new_poll_ops,
                        dropped_events: v,
                    },
                ),
                None => None,
            }
        } else {
            Some(m)
        }
    }

    fn new_empty() -> (m: ResourceUpdate) {
        ResourceUpdate::default()
    }

    fn merge_field(&mut self, f: &WireField) -> (ok: bool) {
        if f.number == 1 {
            match get_bytes(&f.value) {
                Some(b) => match Resource::decode(b.as_slice()) {
                    Some(v) => {
                        self.new_resources.push(v);
                        assert(self@.new_resources =~= old(self)@.new_resources.push(v@));
                        assert(self@.stats_update =~= old(self)@.stats_update);
                        true
                    },
                    None => false,
                },
                None => false,
            }
        } else if f.number == 2 {
            match get_bytes(&f.value) {
                Some(b) => match StatsEntry::decode(b.as_slice()) {
                    Some(e) => {
                        let ghost ev = e@;
                        let StatsEntry { key, value } = e;
                        self.stats_update.insert(key, value);
                        assert(self@.stats_update =~= old(self)@.stats_update.insert(ev.key, ev.value));
                        true
                    },
                    None => false,
                },
                None => false,
            }
        } else if f.number == 3 {
            match get_bytes(&f.value) {
                Some(b) => match PollOp::decode(b.as_slice()) {
                    Some(v) => {
                        self.new_poll_ops.push(v);
                        assert(self@.new_poll_ops =~= old(self)@.new_poll_ops.push(v@));
                        assert(self@.stats_update =~= old(self)@.stats_update);
                        true
                    },
                    None => false,
                },
                None => false,
            }
        } else if f.number == 4 {
            match get_varint(&f.value) {
                Some(v) => {
                    self.dropped_events = v;
                    true
                },
                None => false,
            }
        } else {
            true
        }
    }
}

impl ResourceUpdateView {
    /// The fields `s`, and after them one field 1 for each of the
    /// resources, in order.
    pub open spec fn resource_fields(
        s: Seq<WireFieldView>,
        items: Seq<ResourceView>,
    ) -> Seq<WireFieldView>
        decreases items.len(),
    {
        if items.len() == 0 {
            s
        } else {
            Self::resource_fields(s, items.drop_last()).push(
                bytes_field(1, items.last().wire_bytes()),
            )
        }
    }

    /// The fields `s`, and after them one field 3 for each of the
    /// poll operations, in order.
    pub open spec fn poll_op_fields(
        s: Seq<WireFieldView>,
        items: Seq<PollOpView>,
    ) -> Seq<WireFieldView>
        decreases items.len(),
    {
        if items.len() == 0 {
            s
        } else {
            Self::poll_op_fields(s, items.drop_last()).push(
                bytes_field(3, items.last().wire_bytes()),
            )
        }
    }

    /// The fields `s`, and after them one field 2 for each identifier in
    /// `order`: the entry that gives it its stats.
    pub open spec fn entry_fields(
        s: Seq<WireFieldView>,
        stats: Map<u64, StatsView>,
        order: Seq<u64>,
    ) -> Seq<WireFieldView>
        decreases order.len(),
    {
        if order.len() == 0 {
            s
        } else {
            Self::entry_fields(s, stats, order.drop_last()).push(
                bytes_field(
                    2,
                    (StatsEntryView { key: order.last(), value: stats[order.last()] }).wire_bytes(),
                ),
            )
        }
    }

    /// The stats `base`, and over them those that `stats` has for the
    /// identifiers in `order`.
    pub open spec fn merged(
        base: Map<u64, StatsView>,
        stats: Map<u64, StatsView>,
        order: Seq<u64>,
    ) -> Map<u64, StatsView>
        decreases order.len(),
    {
        if order.len() == 0 {
            base
        } else {
            Self::merged(base, stats, order.drop_last()).insert(order.last(), stats[order.last()])
        }
    }

    /// Whether `order` names the resources that the update brings stats
    /// for, and no others.
    pub open spec fn orders(self, order: Seq<u64>) -> bool {
        forall|k: u64| order.contains(k) <==> self.stats_update.contains_key(k)
    }

    /// The fields of the update, with the stats in the order `order`: one
    /// field 1 for each new resource, one field 2 for each entry of the
    /// stats, one field 3 for each poll operation, and the count of dropped
    /// events as field 4, unless it is 0.
    pub open spec fn fields(self, order: Seq<u64>) -> Seq<WireFieldView> {
        let s1 = Self::resource_fields(Seq::empty(), self.new_resources);
        let s2 = Self::entry_fields(s1, self.stats_update, order);
        let s3 = Self::poll_op_fields(s2, self.new_poll_ops);
        push_if(s3, self.dropped_events != 0, varint_field(4, self.dropped_events))
    }

    /// Whether the update can be written with its stats in the order
    /// `order`: none of its parts is longer than a length can say.
    pub open spec fn encodable(self, order: Seq<u64>) -> bool {
        &&& well_formed(self.fields(order))
        &&& forall|i: int|
            0 <= i < self.new_resources.len() ==> (#[trigger] self.new_resources[i]).encodable()
        &&& forall|k: u64| #[trigger]
            self.stats_update.contains_key(k) ==> (StatsEntryView {
                key: k,
                value: self.stats_update[k],
            }).encodable()
        &&& forall|i: int|
            0 <= i < self.new_poll_ops.len() ==> (#[trigger] self.new_poll_ops[i]).encodable()
    }

    /// The bytes of the update, with the stats in the order `order`.
    pub open spec fn wire_bytes(self, order: Seq<u64>) -> Seq<u8> {
        fields_bytes(self.fields(order))
    }

    /// Fields that make up an update, and after them the fields of resources,
    /// make up the update with these resources behind those that it had.
    pub proof fn lemma_fold_resources(
        s: Seq<WireFieldView>,
        items: Seq<ResourceView>,
        m0: ResourceUpdateView,
    )
        requires
            fold::<ResourceUpdate>(s) == Some(m0),
            forall|i: int| 0 <= i < items.len() ==> (#[trigger] items[i]).encodable(),
        ensures
            fold::<ResourceUpdate>(Self::resource_fields(s, items)) == Some(
                ResourceUpdateView {
                    new_resources: m0.new_resources + items,
                    stats_update: m0.stats_update,
                    new_poll_ops: m0.new_poll_ops,
                    dropped_events: m0.dropped_events,
                },
            ),
        decreases items.len(),
    {
        if items.len() == 0 {
            assert(m0.new_resources + items =~= m0.new_resources);
        } else {
            let front = items.drop_last();
            Self::lemma_fold_resources(s, front, m0);
            let f = bytes_field(1, items.last().wire_bytes());
            lemma_fold_push::<ResourceUpdate>(Self::resource_fields(s, front), f);
            items.last().lemma_round_trip();
            assert((m0.new_resources + front).push(items.last()) =~= m0.new_resources + items);
        }
    }

    /// Fields that make up an update, and after them the fields of poll operations,
    /// make up the update with these poll operations behind those that it had.
    pub proof fn lemma_fold_poll_ops(
        s: Seq<WireFieldView>,
        items: Seq<PollOpView>,
        m0: ResourceUpdateView,
    )
        requires
            fold::<ResourceUpdate>(s) == Some(m0),
            forall|i: int| 0 <= i < items.len() ==> (#[trigger] items[i]).encodable(),
        ensures
            fold::<ResourceUpdate>(Self::poll_op_fields(s, items)) == Some(
                ResourceUpdateView {
                    new_resources: m0.new_resources,
                    stats_update: m0.stats_update,
                    new_poll_ops: m0.new_poll_ops + items,
                    dropped_events: m0.dropped_events,
                },
            ),
        decreases items.len(),
    {
        if items.len() == 0 {
            assert(m0.new_poll_ops + items =~= m0.new_poll_ops);
        } else {
            let front = items.drop_last();
            Self::lemma_fold_poll_ops(s, front, m0);
            let f = bytes_field(3, items.last().wire_bytes());
            lemma_fold_push::<ResourceUpdate>(Self::poll_op_fields(s, front), f);
            items.last().lemma_round_trip();
            assert((m0.new_poll_ops + front).push(items.last()) =~= m0.new_poll_ops + items);
        }
    }

    /// Fields that make up an update, and after them the fields of entries,
    /// make up the update with the stats of the entries over those that it
    /// had.
    pub proof fn lemma_fold_entries(
        s: Seq<WireFieldView>,
        stats: Map<u64, StatsView>,
        order: Seq<u64>,
        m0: ResourceUpdateView,
    )
        requires
            fold::<ResourceUpdate>(s) == Some(m0),
            forall|i: int|
                0 <= i < order.len() ==> (StatsEntryView {
                    key: #[trigger] order[i],
                    value: stats[order[i]],
                }).encodable(),
        ensures
            fold::<ResourceUpdate>(Self::entry_fields(s, stats, order)) == Some(
                ResourceUpdateView {
                    new_resources: m0.new_resources,
                    stats_update: Self::merged(m0.stats_update, stats, order),
                    new_poll_ops: m0.new_poll_ops,
                    dropped_events: m0.dropped_events,
                },
            ),
        decreases order.len(),
    {
        if order.len() > 0 {
            let front = order.drop_last();
            assert forall|i: int| 0 <= i < front.len() implies (StatsEntryView {
                key: #[trigger] front[i],
                value: stats[front[i]],
            }).encodable() by {
                assert(front[i] == order[i]);
            }
            Self::lemma_fold_entries(s, stats, front, m0);
            let e = StatsEntryView { key: order.last(), value: stats[order.last()] };
            assert(order[order.len() - 1] == order.last());
            let f = bytes_field(2, e.wire_bytes());
            lemma_fold_push::<ResourceUpdate>(Self::entry_fields(s, stats, front), f);
            e.lemma_round_trip();
        }
    }

    /// The stats merged in are those of `stats` for the identifiers in
    /// `order`, and those of `base` for the others.
    pub proof fn lemma_merged(
        base: Map<u64, StatsView>,
        stats: Map<u64, StatsView>,
        order: Seq<u64>,
        k: u64,
    )
        ensures
            Self::merged(base, stats, order).contains_key(k) <==> (base.contains_key(k)
                || order.contains(k)),
            order.contains(k) ==> Self::merged(base, stats, order)[k] == stats[k],
            !order.contains(k) ==> Self::merged(base, stats, order)[k] == base[k],
        decreases order.len(),
    {
        if order.len() > 0 {
            let front = order.drop_last();
            Self::lemma_merged(base, stats, front, k);
            if order.contains(k) {
                let j = choose|j: int| 0 <= j < order.len() && order[j] == k;
                if j < front.len() {
                    assert(front[j] == k);
                }
            }
            if front.contains(k) {
                let j = choose|j: int| 0 <= j < front.len() && front[j] == k;
                assert(order[j] == k);
            }
            if k == order.last() {
                assert(order[order.len() - 1] == k);
            }
        }
    }

    /// An update that can be written is read back as it was, in whatever
    /// order its stats were written.
    pub proof fn lemma_round_trip(self, order: Seq<u64>)
        requires
            self.orders(order),
            self.encodable(order),
        ensures
            parse::<ResourceUpdate>(self.wire_bytes(order)) == Some(self),
    {
        let s1 = Self::resource_fields(Seq::empty(), self.new_resources);
        let s2 = Self::entry_fields(s1, self.stats_update, order);
        let s3 = Self::poll_op_fields(s2, self.new_poll_ops);
        let f4 = varint_field(4, self.dropped_events);
        Self::lemma_fold_resources(Seq::empty(), self.new_resources, ResourceUpdate::empty());
        assert(Seq::<ResourceView>::empty() + self.new_resources =~= self.new_resources);
        let m1 = ResourceUpdateView {
            new_resources: self.new_resources,
            stats_update: Map::empty(),
            new_poll_ops: Seq::empty(),
            dropped_events: 0,
        };
        assert(fold::<ResourceUpdate>(s1) == Some(m1));
        assert forall|i: int| 0 <= i < order.len() implies (StatsEntryView {
            key: #[trigger] order[i],
            value: self.stats_update[order[i]],
        }).encodable() by {
            assert(order.contains(order[i]));
            assert(self.stats_update.contains_key(order[i]));
        }
        Self::lemma_fold_entries(s1, self.stats_update, order, m1);
        assert forall|k: u64|
            Self::merged(Map::empty(), self.stats_update, order).contains_key(k)
                == self.stats_update.contains_key(k) && (self.stats_update.contains_key(k)
                ==> Self::merged(Map::empty(), self.stats_update, order)[k]
                == self.stats_update[k]) by {
            Self::lemma_merged(Map::empty(), self.stats_update, order, k);
        }
        assert(Self::merged(Map::empty(), self.stats_update, order) =~= self.stats_update);
        let m2 = ResourceUpdateView {
            new_resources: self.new_resources,
            stats_update: self.stats_update,
            new_poll_ops: Seq::empty(),
            dropped_events: 0,
        };
        assert(fold::<ResourceUpdate>(s2) == Some(m2));
        Self::lemma_fold_poll_ops(s2, self.new_poll_ops, m2);
        assert(Seq::<PollOpView>::empty() + self.new_poll_ops =~= self.new_poll_ops);
        let m3 = ResourceUpdateView {
            new_resources: self.new_resources,
            stats_update: self.stats_update,
            new_poll_ops: self.new_poll_ops,
            dropped_events: 0,
        };
        assert(fold::<ResourceUpdate>(s3) == Some(m3));
        lemma_fold_push::<ResourceUpdate>(s3, f4);
        lemma_fields_round_trip(self.fields(order));
    }
}

impl ResourceUpdate {
    fn to_fields(&self) -> (res: (Vec<WireField>, Ghost<Seq<u64>>))
        ensures
            match res {
                (fs, order) => {
                    &&& views(fs@) == self@.fields(order@)
                    &&& well_formed(views(fs@))
                    &&& self@.orders(order@)
                    &&& self@.encodable(order@)
                },
            },
    {
        let mut fs: Vec<WireField> = Vec::new();
        let ghost rs = self@.new_resources;
        let mut i: usize = 0;
        while i < self.new_resources.len()
            invariant
                i <= self.new_resources@.len(),
                rs == self@.new_resources,
                views(fs@) == ResourceUpdateView::resource_fields(Seq::empty(), rs.take(i as int)),
                well_formed(views(fs@)),
                forall|j: int| 0 <= j < i ==> (#[trigger] rs[j]).encodable(),
            decreases self.new_resources@.len() - i,
        {
            let bytes = self.new_resources[i].encode_to_vec();
            push_field(&mut fs, new_bytes_field(1, bytes));
            proof {
                assert(rs.take(i + 1).drop_last() =~= rs.take(i as int));
                assert(rs.take(i + 1).last() == self.new_resources@[i as int]@);
            }
            i += 1;
        }
        assert(rs.take(i as int) =~= rs);
        let ghost s1 = views(fs@);
        let ghost stats = self@.stats_update;
        let keys = keys_of(&self.stats_update);
        assert forall|k: u64| keys@.contains(k) <==> stats.contains_key(k) by {
            assert(keys@.to_set().contains(k) <==> self.stats_update@.dom().contains(k));
        }
        let mut n: usize = 0;
        while n < keys.len()
            invariant
                n <= keys@.len(),
                stats == self@.stats_update,
                forall|k: u64| keys@.contains(k) <==> stats.contains_key(k),
                views(fs@) == ResourceUpdateView::entry_fields(s1, stats, keys@.take(n as int)),
                well_formed(views(fs@)),
                forall|j: int|
                    0 <= j < n ==> (StatsEntryView {
                        key: #[trigger] keys@[j],
                        value: stats[keys@[j]],
                    }).encodable(),
            decreases keys@.len() - n,
        {
            let k = keys[n];
            assert(keys@.contains(k));
            let st = self.stats_update.get(&k).unwrap();
            assert(st@ == stats[k]);
            let bytes = entry_bytes(k, st);
            push_field(&mut fs, new_bytes_field(2, bytes));
            proof {
                assert(keys@.take(n + 1).drop_last() =~= keys@.take(n as int));
                assert(keys@.take(n + 1).last() == k);
            }
            n += 1;
        }
        assert(keys@.take(n as int) =~= keys@);
        let ghost s2 = views(fs@);
        let ghost ops = self@.new_poll_ops;
        let mut p: usize = 0;
        while p < self.new_poll_ops.len()
            invariant
                p <= self.new_poll_ops@.len(),
                ops == self@.new_poll_ops,
                views(fs@) == ResourceUpdateView::poll_op_fields(s2, ops.take(p as int)),
                well_formed(views(fs@)),
                forall|j: int| 0 <= j < p ==> (#[trigger] ops[j]).encodable(),
            decreases self.new_poll_ops@.len() - p,
        {
            let bytes = self.new_poll_ops[p].encode_to_vec();
            push_field(&mut fs, new_bytes_field(3, bytes));
            proof {
                assert(ops.take(p + 1).drop_last() =~= ops.take(p as int));
                assert(ops.take(p + 1).last() == self.new_poll_ops@[p as int]@);
            }
            p += 1;
        }
        assert(ops.take(p as int) =~= ops);
        if self.dropped_events != 0 {
            push_field(&mut fs, new_varint_field(4, self.dropped_events));
        }
        proof {
            assert(views(fs@) =~= self@.fields(keys@));
            assert forall|k: u64| #[trigger] stats.contains_key(k) implies (StatsEntryView {
                key: k,
                value: stats[k],
            }).encodable() by {
                assert(keys@.contains(k));
                let j = choose|j: int| 0 <= j < keys@.len() && keys@[j] == k;
                assert((StatsEntryView { key: keys@[j], value: stats[keys@[j]] }).encodable());
            }
        }
        (fs, Ghost(keys@))
    }

    /// The update that `bytes` encode, or `None` if they encode none.
    pub fn decode(bytes: &[u8]) -> (res: Option<ResourceUpdate>)
        ensures
            match res {
                Some(m) => parse::<ResourceUpdate>(bytes@) == Some(m@),
                None => parse::<ResourceUpdate>(bytes@) is None,
            },
    {
        decode::<ResourceUpdate>(bytes)
    }

    /// The bytes of the update. The stats are written in the order in which
    /// the map hands them out; whatever that order, the bytes are read back
    /// as the update.
    pub fn encode_to_vec(&self) -> (bytes: Vec<u8>)
        ensures
            parse::<ResourceUpdate>(bytes@) == Some(self@),
            exists|order: Seq<u64>|
                self@.orders(order) && self@.encodable(order) && bytes@ == #[trigger] self@.wire_bytes(
                    order,
                ),
    {
        let (fs, order) = self.to_fields();
        let bytes = encode_fields(&fs);
        proof {
            self@.lemma_round_trip(order@);
            assert(bytes@ == self@.wire_bytes(order@));
        }
        bytes
    }
}

} // verus!
