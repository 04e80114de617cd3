//! Queries on a context: lookup by full name, resolution of references, and
//! lookup of the members of a type.

use vstd::prelude::*;

use crate::context::{
    Context, ContextView, EnumField, EnumFieldView, EnumInfo, EnumInfoView, EnumRef, InternalRef,
    MessageField, MessageFieldView, MessageInfo, MessageInfoView, MessageRef, Oneof, OneofRef,
    OneofView, Package, PackageRef, Rpc, RpcView, Service, ServiceView, TypeInfo, TypeInfoView,
    TypeParent, TypeRef, ValueType,
};
use crate::context::table::{
    field_in, fields_of, lemma_fields_ascending, lemma_values_ascending, value_in, values_of,
};
use crate::search::{
    first_match, last_match, lemma_first_match_is, lemma_first_match_none, lemma_last_match_is,
    lemma_last_match_none,
};
use crate::text::same_text;

verus! {

impl TypeInfoView {
    /// The name of the type.
    pub open spec fn name(self) -> Seq<char> {
        match self {
            TypeInfoView::Message(m) => m.name,
            TypeInfoView::Enum(e) => e.name,
        }
    }

    /// The full name of the type.
    pub open spec fn full_name(self) -> Seq<char> {
        match self {
            TypeInfoView::Message(m) => m.full_name,
            TypeInfoView::Enum(e) => e.full_name,
        }
    }

    /// The package or message that holds the type.
    pub open spec fn parent(self) -> TypeParent {
        match self {
            TypeInfoView::Message(m) => m.parent,
            TypeInfoView::Enum(e) => e.parent,
        }
    }

    /// The fields of the type stand in strictly ascending order: those of a
    /// message by number, those of an enum by value.
    pub open spec fn fields_ascending(self) -> bool {
        match self {
            TypeInfoView::Message(m) => m.fields_ascending(),
            TypeInfoView::Enum(e) => e.fields_ascending(),
        }
    }

    /// The reference that the type holds to itself.
    pub open spec fn self_ref(self) -> TypeRef {
        match self {
            TypeInfoView::Message(m) => TypeRef::Message(m.self_ref),
            TypeInfoView::Enum(e) => TypeRef::Enum(e.self_ref),
        }
    }
}

impl MessageInfoView {
    /// The position of the field with the given number.
    pub open spec fn field_index(self, number: u64) -> Option<int> {
        first_match(self.fields, |f: MessageFieldView| f.number == number)
    }

    /// The field with the given number.
    pub open spec fn field_by_number(self, number: u64) -> Option<MessageFieldView> {
        match self.field_index(number) {
            Some(i) => Some(self.fields[i]),
            None => None,
        }
    }

    /// The field with the given name.
    pub open spec fn field_by_name(self, name: Seq<char>) -> Option<MessageFieldView> {
        match first_match(self.fields, |f: MessageFieldView| f.name == name) {
            Some(i) => Some(self.fields[i]),
            None => None,
        }
    }

    /// The `oneof` that holds the given reference to itself.
    pub open spec fn oneof_by_ref(self, oneof: OneofRef) -> Option<OneofView> {
        match first_match(self.oneofs, |o: OneofView| o.self_ref == oneof) {
            Some(i) => Some(self.oneofs[i]),
            None => None,
        }
    }

    /// The fields stand in strictly ascending order of their numbers.
    pub open spec fn fields_ascending(self) -> bool {
        forall|i: int, j: int|
            0 <= i < j < self.fields.len() ==> self.fields[i].number < self.fields[j].number
    }

    /// No two fields have the same name.
    pub open spec fn names_distinct(self) -> bool {
        forall|i: int, j: int|
            0 <= i < j < self.fields.len() ==> self.fields[i].name != self.fields[j].name
    }

    /// No two `oneof`s have the same name.
    pub open spec fn oneof_names_distinct(self) -> bool {
        forall|i: int, j: int|
            0 <= i < j < self.oneofs.len() ==> self.oneofs[i].name != self.oneofs[j].name
    }

    /// Each `oneof` holds its own position as its reference; a field that is
    /// in a `oneof` names one that the message has; and a `oneof` lists only
    /// numbers of fields that the message has.
    pub open spec fn oneofs_linked(self) -> bool {
        &&& forall|k: int|
            0 <= k < self.oneofs.len() ==> (#[trigger] self.oneofs[k]).self_ref.index() == k
        &&& forall|i: int|
            0 <= i < self.fields.len() && (#[trigger] self.fields[i]).oneof is Some ==> 0
                <= self.fields[i].oneof.unwrap().index() < self.oneofs.len()
        &&& forall|k: int, x: int|
            0 <= k < self.oneofs.len() && 0 <= x < self.oneofs[k].fields.len()
                ==> self.field_index(#[trigger] self.oneofs[k].fields[x]) is Some
    }

    /// The invariant of a message: fields ordered by number, with distinct
    /// names, and `oneof`s with distinct names that are linked with the
    /// fields.
    pub open spec fn wf(self) -> bool {
        &&& self.fields_ascending()
        &&& self.names_distinct()
        &&& self.oneof_names_distinct()
        &&& self.oneofs_linked()
    }

    /// Every message that a field of this message refers to is a message of
    /// `ctx`.
    pub open spec fn refs_resolved_in(self, ctx: ContextView) -> bool {
        forall|j: int|
            0 <= j < self.fields.len() && (#[trigger] self.fields[j]).field_type is Message
                ==> ctx.has_message(self.fields[j].field_type->Message_0)
    }
}

impl EnumInfoView {
    /// The field with the given value.
    pub open spec fn field_by_value(self, value: i64) -> Option<EnumFieldView> {
        match first_match(self.fields, |f: EnumFieldView| f.value == value) {
            Some(i) => Some(self.fields[i]),
            None => None,
        }
    }

    /// The fields stand in strictly ascending order of their values.
    pub open spec fn fields_ascending(self) -> bool {
        forall|i: int, j: int|
            0 <= i < j < self.fields.len() ==> self.fields[i].value < self.fields[j].value
    }

    /// The invariant of an enum: fields in strictly ascending order of their
    /// values, with distinct names.
    pub open spec fn wf(self) -> bool {
        &&& self.fields_ascending()
        &&& forall|i: int, j: int|
            0 <= i < j < self.fields.len() ==> self.fields[i].name != self.fields[j].name
    }
}

impl ServiceView {
    /// The operation with the given name; the last one declared where several
    /// share it.
    pub open spec fn rpc_by_name(self, name: Seq<char>) -> Option<RpcView> {
        match last_match(self.rpcs, |r: RpcView| r.name == name) {
            Some(i) => Some(self.rpcs[i]),
            None => None,
        }
    }
}

impl ContextView {
    /// The context without any package, type or service.
    pub open spec fn empty() -> ContextView {
        ContextView { packages: Seq::empty(), types: Seq::empty(), services: Seq::empty() }
    }

    /// The position of the type with the given full name.
    pub open spec fn type_index(self, full_name: Seq<char>) -> Option<int> {
        first_match(self.types, |t: TypeInfoView| t.full_name() == full_name)
    }

    /// The type with the given full name.
    pub open spec fn type_by_name(self, full_name: Seq<char>) -> Option<TypeInfoView> {
        match self.type_index(full_name) {
            Some(i) => Some(self.types[i]),
            None => None,
        }
    }

    /// The message with the given full name.
    pub open spec fn message_by_name(self, full_name: Seq<char>) -> Option<MessageInfoView> {
        match self.type_by_name(full_name) {
            Some(TypeInfoView::Message(m)) => Some(m),
            _ => None,
        }
    }

    /// The service with the given full name.
    pub open spec fn service_by_name(self, full_name: Seq<char>) -> Option<ServiceView> {
        match first_match(self.services, |s: ServiceView| s.full_name == full_name) {
            Some(i) => Some(self.services[i]),
            None => None,
        }
    }

    /// The reference points at a package of this context.
    pub open spec fn has_package(self, package: PackageRef) -> bool {
        0 <= package.index() < self.packages.len()
    }

    /// The reference points at a message of this context.
    pub open spec fn has_message(self, message: MessageRef) -> bool {
        0 <= message.index() < self.types.len() && self.types[message.index()] is Message
    }

    /// The reference points at an enum of this context.
    pub open spec fn has_enum(self, e: EnumRef) -> bool {
        0 <= e.index() < self.types.len() && self.types[e.index()] is Enum
    }

    /// The message that a reference of this context points at.
    pub open spec fn message(self, message: MessageRef) -> MessageInfoView
        recommends
            self.has_message(message),
    {
        self.types[message.index()]->Message_0
    }

    /// The enum that a reference of this context points at.
    pub open spec fn enumeration(self, e: EnumRef) -> EnumInfoView
        recommends
            self.has_enum(e),
    {
        self.types[e.index()]->Enum_0
    }

    /// The fields of every type of this context stand in strictly ascending
    /// order: those of a message by number, those of an enum by value.
    pub open spec fn fields_ascending(self) -> bool {
        forall|i: int| 0 <= i < self.types.len() ==> (#[trigger] self.types[i]).fields_ascending()
    }

    /// The `oneof`s of every message of this context are linked with its
    /// fields.
    pub open spec fn oneofs_linked(self) -> bool {
        forall|i: int|
            0 <= i < self.types.len() && (#[trigger] self.types[i]) is Message
                ==> self.types[i]->Message_0.oneofs_linked()
    }

    /// Every message that a field of a message of this context refers to is a
    /// message of this context.
    pub open spec fn refs_resolved(self) -> bool {
        forall|i: int|
            0 <= i < self.types.len() && (#[trigger] self.types[i]) is Message
                ==> self.types[i]->Message_0.refs_resolved_in(self)
    }

    /// The package or message is one of this context.
    pub open spec fn has_parent(self, parent: TypeParent) -> bool {
        match parent {
            TypeParent::Package(p) => self.has_package(p),
            TypeParent::Message(m) => self.has_message(m),
        }
    }
}

impl Context {
    /// Create a new context.
    pub fn new() -> (r: Self)
        ensures
            r@ == ContextView::empty(),
    {
        let r = Context { packages: Vec::new(), types: Vec::new(), services: Vec::new() };
        assert(r@.packages =~= Seq::empty());
        assert(r@.types =~= Seq::empty());
        assert(r@.services =~= Seq::empty());
        r
    }

    /// Whether the reference points at a package of this context.
    pub fn contains_package(&self, package_ref: PackageRef) -> (r: bool)
        ensures
            r == self@.has_package(package_ref),
    {
        (package_ref.0).0 < self.packages.len()
    }

    /// Whether the reference points at a message of this context.
    pub fn contains_message(&self, tr: MessageRef) -> (r: bool)
        ensures
            r == self@.has_message(tr),
    {
        match self.resolve_type(tr.0) {
            Some(TypeInfo::Message(_)) => true,
            _ => false,
        }
    }

    /// Whether the reference points at an enum of this context.
    pub fn contains_enum(&self, tr: EnumRef) -> (r: bool)
        ensures
            r == self@.has_enum(tr),
    {
        match self.resolve_type(tr.0) {
            Some(TypeInfo::Enum(_)) => true,
            _ => false,
        }
    }

    /// Whether every message that a field of a message of this context
    /// refers to is a message of this context. A payload can be decoded
    /// against a context of which this holds.
    pub fn references_resolved(&self) -> (r: bool)
        ensures
            r == self@.refs_resolved(),
    {
        let mut i: usize = 0;
        while i < self.types.len()
            invariant
                i <= self.types.len(),
                forall|k: int|
                    0 <= k < i && (#[trigger] self@.types[k]) is Message
                        ==> self@.types[k]->Message_0.refs_resolved_in(self@),
            decreases self.types.len() - i,
        {
            match &self.types[i] {
                TypeInfo::Message(m) => {
                    if !m.references_resolved_in(self) {
                        assert(self@.types[i as int] is Message);
                        return false;
                    }
                },
                TypeInfo::Enum(_) => {},
            }
            i += 1;
        }
        true
    }

    /// Resolves a package reference.
    ///
    /// The reference must point at a package of this context.
    pub fn resolve_package(&self, package_ref: PackageRef) -> (r: &Package)
        requires
            self@.has_package(package_ref),
        ensures
            r@ == self@.packages[package_ref.index()],
    {
        &self.packages[(package_ref.0).0]
    }

    /// Gets type info by name.
    pub fn get_type(&self, full_name: &str) -> (r: Option<&TypeInfo>)
        ensures
            match self@.type_by_name(full_name@) {
                Some(t) => r is Some && r.unwrap()@ == t,
                None => r is None,
            },
    {
        let ghost p = |t: TypeInfoView| t.full_name() == full_name@;
        let mut i: usize = 0;
        while i < self.types.len()
            invariant
                i <= self.types.len(),
                p == |t: TypeInfoView| t.full_name() == full_name@,
                forall|j: int| 0 <= j < i ==> !p(self@.types[j]),
            decreases self.types.len() - i,
        {
            let t = &self.types[i];
            if same_text(t.full_name(), full_name) {
                proof {
                    lemma_first_match_is(self@.types, p, i as int);
                }
                return Some(t);
            }
            i += 1;
        }
        proof {
            lemma_first_match_none(self@.types, p);
        }
        None
    }

    /// Gets a message type info by name.
    pub fn get_message(&self, full_name: &str) -> (r: Option<&MessageInfo>)
        ensures
            match self@.message_by_name(full_name@) {
                Some(m) => r is Some && r.unwrap()@ == m,
                None => r is None,
            },
    {
        match self.get_type(full_name) {
            Some(TypeInfo::Message(m)) => Some(m),
            _ => None,
        }
    }

    fn resolve_type(&self, tr: InternalRef) -> (r: Option<&TypeInfo>)
        ensures
            match r {
                Some(t) => tr.0 < self.types@.len() && *t == self.types@[tr.0 as int],
                None => tr.0 >= self.types@.len(),
            },
    {
        if tr.0 < self.types.len() {
            Some(&self.types[tr.0])
        } else {
            None
        }
    }

    /// Resolves a message reference.
    ///
    /// The reference must point at a message of this context: one that this
    /// context handed out.
    pub fn resolve_message(&self, tr: MessageRef) -> (r: &MessageInfo)
        requires
            self@.has_message(tr),
        ensures
            r@ == self@.message(tr),
    {
        match &self.types[(tr.0).0] {
            TypeInfo::Message(msg) => msg,
            TypeInfo::Enum(_) => {
                proof {
                    assert(false);
                }
                unreached()
            },
        }
    }

    /// Resolves a enum reference.
    ///
    /// The reference must point at an enum of this context: one that this
    /// context handed out.
    pub fn resolve_enum(&self, tr: EnumRef) -> (r: &EnumInfo)
        requires
            self@.has_enum(tr),
        ensures
            r@ == self@.enumeration(tr),
    {
        match &self.types[(tr.0).0] {
            TypeInfo::Enum(e) => e,
            TypeInfo::Message(_) => {
                proof {
                    assert(false);
                }
                unreached()
            },
        }
    }

    /// Gets a service by full name.
    pub fn get_service(&self, full_name: &str) -> (r: Option<&Service>)
        ensures
            match self@.service_by_name(full_name@) {
                Some(s) => r is Some && r.unwrap()@ == s,
                None => r is None,
            },
    {
        let ghost p = |s: ServiceView| s.full_name == full_name@;
        let mut i: usize = 0;
        while i < self.services.len()
            invariant
                i <= self.services.len(),
                p == |s: ServiceView| s.full_name == full_name@,
                forall|j: int| 0 <= j < i ==> !p(self@.services[j]),
            decreases self.services.len() - i,
        {
            let s = &self.services[i];
            if same_text(s.full_name.as_str(), full_name) {
                proof {
                    lemma_first_match_is(self@.services, p, i as int);
                }
                return Some(s);
            }
            i += 1;
        }
        proof {
            lemma_first_match_none(self@.services, p);
        }
        None
    }
}

impl Package {
    /// The name of the package; `None` for the anonymous package.
    pub fn name(&self) -> (r: Option<&str>)
        ensures
            match self@.name {
                Some(n) => r is Some && r.unwrap()@ == n,
                None => r is None,
            },
    {
        match &self.name {
            Some(n) => Some(n.as_str()),
            None => None,
        }
    }

    /// The reference of the package in its context.
    pub fn self_ref(&self) -> (r: PackageRef)
        ensures
            r == self@.self_ref,
    {
        self.self_ref
    }

    /// The top-level types of the package, in the order of their insertion.
    pub fn types(&self) -> (r: &Vec<TypeRef>)
        ensures
            r@ == self@.types,
    {
        &self.types
    }

    /// The positions of the services of the package in the service arena.
    pub fn services(&self) -> (r: &Vec<usize>)
        ensures
            r@ == self@.services,
    {
        &self.services
    }
}

impl TypeInfo {
    /// Get the name of the type.
    pub fn name(&self) -> (r: &str)
        ensures
            r@ == self@.name(),
    {
        match self {
            TypeInfo::Message(m) => m.name.as_str(),
            TypeInfo::Enum(e) => e.name.as_str(),
        }
    }

    /// Get the full name of the type.
    pub fn full_name(&self) -> (r: &str)
        ensures
            r@ == self@.full_name(),
    {
        match self {
            TypeInfo::Message(m) => m.full_name.as_str(),
            TypeInfo::Enum(e) => e.full_name.as_str(),
        }
    }

    /// Get the parent information for the type.
    pub fn parent(&self) -> (r: TypeParent)
        ensures
            r == self@.parent(),
    {
        match self {
            TypeInfo::Message(m) => m.parent,
            TypeInfo::Enum(e) => e.parent,
        }
    }
}

impl MessageInfo {
    /// Whether every message that a field of this message refers to is a
    /// message of `ctx`.
    pub fn references_resolved_in(&self, ctx: &Context) -> (r: bool)
        ensures
            r == self@.refs_resolved_in(ctx@),
    {
        let fields = fields_of(&self.fields);
        let mut j: usize = 0;
        while j < fields.len()
            invariant
                j <= fields.len(),
                fields@.len() == self@.fields.len(),
                forall|k: int| 0 <= k < fields@.len() ==> fields@[k]@ == self@.fields[k],
                forall|k: int|
                    0 <= k < j && (#[trigger] self@.fields[k]).field_type is Message
                        ==> ctx@.has_message(self@.fields[k].field_type->Message_0),
            decreases fields.len() - j,
        {
            match fields[j].field_type {
                ValueType::Message(m) => {
                    if !ctx.contains_message(m) {
                        assert(self@.fields[j as int].field_type is Message);
                        return false;
                    }
                },
                _ => {},
            }
            j += 1;
        }
        true
    }

    /// All message fields, in ascending order of their numbers.
    pub fn iter_fields(&self) -> (r: Vec<&MessageField>)
        ensures
            r@.len() == self@.fields.len(),
            forall|i: int| 0 <= i < r@.len() ==> r@[i]@ == self@.fields[i],
            forall|i: int, j: int| 0 <= i < j < r@.len() ==> r@[i].number < r@[j].number,
    {
        let r = fields_of(&self.fields);
        proof {
            lemma_fields_ascending(self.fields@);
            assert forall|i: int, j: int| 0 <= i < j < r@.len() implies r@[i].number
                < r@[j].number by {
                assert(r@[i]@ == self@.fields[i]);
                assert(r@[j]@ == self@.fields[j]);
            }
        }
        r
    }

    /// Get a field by its number.
    pub fn get_field(&self, number: u64) -> (r: Option<&MessageField>)
        ensures
            match self@.field_by_number(number) {
                Some(f) => r is Some && r.unwrap()@ == f,
                None => r is None,
            },
    {
        field_in(&self.fields, number)
    }

    /// Get a field by its name.
    pub fn get_field_by_name(&self, name: &str) -> (r: Option<&MessageField>)
        ensures
            match self@.field_by_name(name@) {
                Some(f) => r is Some && r.unwrap()@ == f,
                None => r is None,
            },
    {
        let ghost p = |f: MessageFieldView| f.name == name@;
        let fields = fields_of(&self.fields);
        let mut i: usize = 0;
        while i < fields.len()
            invariant
                i <= fields.len(),
                fields@.len() == self@.fields.len(),
                forall|j: int| 0 <= j < fields@.len() ==> fields@[j]@ == self@.fields[j],
                p == |f: MessageFieldView| f.name == name@,
                forall|j: int| 0 <= j < i ==> !p(self@.fields[j]),
            decreases fields.len() - i,
        {
            let f = fields[i];
            if same_text(f.name.as_str(), name) {
                proof {
                    lemma_first_match_is(self@.fields, p, i as int);
                }
                return Some(f);
            }
            i += 1;
        }
        proof {
            lemma_first_match_none(self@.fields, p);
        }
        None
    }

    /// Gets a oneof by a oneof reference.
    pub fn get_oneof(&self, oneof: OneofRef) -> (r: Option<&Oneof>)
        ensures
            match self@.oneof_by_ref(oneof) {
                Some(o) => r is Some && r.unwrap()@ == o,
                None => r is None,
            },
    {
        let ghost p = |o: OneofView| o.self_ref == oneof;
        let mut i: usize = 0;
        while i < self.oneofs.len()
            invariant
                i <= self.oneofs.len(),
                p == |o: OneofView| o.self_ref == oneof,
                forall|j: int| 0 <= j < i ==> !p(self@.oneofs[j]),
            decreases self.oneofs.len() - i,
        {
            let o = &self.oneofs[i];
            if o.self_ref == oneof {
                proof {
                    lemma_first_match_is(self@.oneofs, p, i as int);
                }
                return Some(o);
            }
            i += 1;
        }
        proof {
            lemma_first_match_none(self@.oneofs, p);
        }
        None
    }
}

impl EnumInfo {
    /// Gets a field by value.
    pub fn get_field_by_value(&self, value: i64) -> (r: Option<&EnumField>)
        ensures
            match self@.field_by_value(value) {
                Some(f) => r is Some && r.unwrap()@ == f,
                None => r is None,
            },
    {
        value_in(&self.fields, value)
    }

    /// All enum fields, in ascending order of their values.
    pub fn iter_fields(&self) -> (r: Vec<&EnumField>)
        ensures
            r@.len() == self@.fields.len(),
            forall|i: int| 0 <= i < r@.len() ==> r@[i]@ == self@.fields[i],
            forall|i: int, j: int| 0 <= i < j < r@.len() ==> r@[i].value < r@[j].value,
    {
        let r = values_of(&self.fields);
        proof {
            lemma_values_ascending(self.fields@);
            assert forall|i: int, j: int| 0 <= i < j < r@.len() implies r@[i].value
                < r@[j].value by {
                assert(r@[i]@ == self@.fields[i]);
                assert(r@[j]@ == self@.fields[j]);
            }
        }
        r
    }
}

impl Service {
    /// Gets an `Rpc` info by operation name.
    pub fn rpc_by_name(&self, name: &str) -> (r: Option<&Rpc>)
        ensures
            match self@.rpc_by_name(name@) {
                Some(rpc) => r is Some && r.unwrap()@ == rpc,
                None => r is None,
            },
    {
        let ghost p = |r: RpcView| r.name == name@;
        let mut i: usize = self.rpcs.len();
        while i > 0
            invariant
                i <= self.rpcs.len(),
                p == |r: RpcView| r.name == name@,
                forall|j: int| i <= j < self.rpcs.len() ==> !p(self@.rpcs[j]),
            decreases i,
        {
            i -= 1;
            let rpc = &self.rpcs[i];
            if same_text(rpc.name.as_str(), name) {
                proof {
                    lemma_last_match_is(self@.rpcs, p, i as int);
                }
                return Some(rpc);
            }
        }
        proof {
            lemma_last_match_none(self@.rpcs, p);
        }
        None
    }
}

impl ValueType {
    /// The wire type under which a value of this type is encoded: 0 for
    /// varints, 1 for 64-bit values, 2 for length-delimited values and 5 for
    /// 32-bit values.
    pub open spec fn spec_wire_type(&self) -> u8 {
        match self {
            ValueType::Double => 1,
            ValueType::Float => 5,
            ValueType::Int32 => 0,
            ValueType::Int64 => 0,
            ValueType::UInt32 => 0,
            ValueType::UInt64 => 0,
            ValueType::SInt32 => 0,
            ValueType::SInt64 => 0,
            ValueType::Fixed32 => 5,
            ValueType::Fixed64 => 1,
            ValueType::SFixed32 => 5,
            ValueType::SFixed64 => 1,
            ValueType::Bool => 0,
            ValueType::String => 2,
            ValueType::Bytes => 2,
            ValueType::Message(_) => 2,
            ValueType::Enum(_) => 0,
        }
    }

    /// The wire type under which a value of this type is encoded.
    #[verifier::when_used_as_spec(spec_wire_type)]
    pub fn wire_type(&self) -> (r: u8)
        ensures
            r == self.spec_wire_type(),
    {
        match self {
            ValueType::Double => 1,
            ValueType::Float => 5,
            ValueType::Int32 => 0,
            ValueType::Int64 => 0,
            ValueType::UInt32 => 0,
            ValueType::UInt64 => 0,
            ValueType::SInt32 => 0,
            ValueType::SInt64 => 0,
            ValueType::Fixed32 => 5,
            ValueType::Fixed64 => 1,
            ValueType::SFixed32 => 5,
            ValueType::SFixed64 => 1,
            ValueType::Bool => 0,
            ValueType::String => 2,
            ValueType::Bytes => 2,
            ValueType::Message(_) => 2,
            ValueType::Enum(_) => 0,
        }
    }
}

} // verus!
