//! The unresolved schema, one tree per file, and its resolution into a
//! [`Context`].
//!
//! The trees hold the types of fields and the inputs and outputs of
//! operations as names. [`ContextBuilder::build`] catalogues every message,
//! enum and service under its full name and then resolves every name; it is
//! proved to compute [`resolved`].

use std::collections::BTreeMap;

use vstd::prelude::*;

use crate::context::table::{
    fields_in_order, fields_of, lemma_no_fields, lemma_no_values, put_in, put_value_in,
    values_in_order,
};
use crate::context::{
    Constant, Context, EnumField, EnumInfo, EnumRef, InternalRef, ItemType,
    MessageField, MessageFieldView, MessageInfo, MessageRef, Multiplicity, Oneof, OneofRef, Package,
    PackageRef, ParseError, ProtoOption, ProtoOptionView, Rpc, RpcArg, RpcView, Service, ServiceRef,
    ServiceView, TypeInfo, TypeInfoView, TypeParent, TypeRef, ValueType, copy_options, views,
};
use crate::context::references::{
    lemma_resolved_references, plain_fields, plain_forest, plain_inners, plain_items,
    plain_message, plain_tree, plain_type,
};
use crate::context::resolve::{
    ItemNode, ParseErrorView, Source, built_enum, built_field, built_fields, built_message,
    built_oneofs, built_packages, built_rpc, built_rpc_arg, built_rpcs, built_service,
    built_services, built_types, catalogue, children, climb, count_services, count_types, enter,
    enum_node, file_entries, find_item, forest_entries, inner_entries, is_name, member_fields,
    message_entries, multiplicity_of, name_position, oneof_numbers, ordered_enum_fields,
    package_for, package_names, package_services, resolved,
    resolved_field_type, scoped_lookup, scoped_name, service_node,
};
use crate::context::validity::{
    lemma_resolved_fields_ascending, lemma_resolved_oneofs_linked, lemma_resolved_well_formed,
};
use crate::search::{first_match, lemma_first_match_is, lemma_first_match_none};
use crate::text::{
    dotted, join_path, lemma_enclosing_scope_shorter, option_text, parent_scope, same_name,
    same_text,
};

verus! {

/// The schema files to resolve, one unresolved tree for each.
#[derive(Default, Debug, PartialEq)]
pub struct ContextBuilder {
    /// The trees, in the order of the files.
    pub packages: Vec<PackageBuilder>,
}

/// The unresolved tree of one schema file.
#[derive(Default, Debug, PartialEq)]
pub struct PackageBuilder {
    /// The name of the package that the file declares, if it declares one.
    pub name: Option<String>,
    /// The names of the files that the file imports.
    pub imported_types: Vec<String>,
    /// The top-level messages, enums and services, in the order of the file.
    pub types: Vec<ProtobufItemBuilder>,
}

/// A top-level item of a file.
#[derive(Debug, PartialEq)]
pub enum ProtobufItemBuilder {
    /// A message or an enum.
    Type(ProtobufTypeBuilder),
    /// A service.
    Service(ServiceBuilder),
}

/// A top-level message or enum.
#[derive(Debug, PartialEq)]
pub enum ProtobufTypeBuilder {
    /// A message.
    Message(MessageBuilder),
    /// An enum.
    Enum(EnumBuilder),
}

/// An unresolved message.
#[derive(Default, Debug, PartialEq)]
pub struct MessageBuilder {
    /// The name of the message.
    pub name: String,
    /// The fields outside any `oneof`.
    pub fields: Vec<FieldBuilder>,
    /// The `oneof`s with their member fields.
    pub oneofs: Vec<OneofBuilder>,
    /// The messages and enums declared inside the message.
    pub inner_types: Vec<InnerTypeBuilder>,
    /// The options of the message.
    pub options: Vec<ProtoOption>,
}

/// A message or enum declared inside a message.
#[derive(Debug, PartialEq)]
pub enum InnerTypeBuilder {
    /// A message.
    Message(MessageBuilder),
    /// An enum.
    Enum(EnumBuilder),
}

/// An unresolved enum.
#[derive(Default, Debug, PartialEq, Clone)]
pub struct EnumBuilder {
    /// The name of the enum.
    pub name: String,
    /// The fields, in the order of the file.
    pub fields: Vec<EnumField>,
    /// The options of the enum.
    pub options: Vec<ProtoOption>,
}

/// An unresolved service.
#[derive(Default, Debug, PartialEq)]
pub struct ServiceBuilder {
    /// The name of the service.
    pub name: String,
    /// The operations, in the order of the file.
    pub rpcs: Vec<RpcBuilder>,
    /// The options of the service.
    pub options: Vec<ProtoOption>,
}

/// An unresolved field.
#[derive(Debug, PartialEq, Clone)]
pub struct FieldBuilder {
    /// Whether the field is declared `repeated`.
    pub repeated: bool,
    /// The type of the field: a builtin type or a name.
    pub field_type: FieldTypeBuilder,
    /// The name of the field.
    pub name: String,
    /// The number of the field.
    pub number: u64,
    /// The options of the field.
    pub options: Vec<ProtoOption>,
}

/// An unresolved `oneof`.
#[derive(Default, Debug, PartialEq, Clone)]
pub struct OneofBuilder {
    /// The name of the `oneof`.
    pub name: String,
    /// The member fields.
    pub fields: Vec<FieldBuilder>,
    /// The options of the `oneof`.
    pub options: Vec<ProtoOption>,
}

/// The type of an unresolved field.
#[derive(Debug, PartialEq, Clone)]
pub enum FieldTypeBuilder {
    /// One of the scalar types, `string` or `bytes`.
    Builtin(ValueType),
    /// The name of a message or an enum.
    Unknown(String),
}

/// An unresolved operation of a service.
#[derive(Default, Debug, PartialEq)]
pub struct RpcBuilder {
    /// The name of the operation.
    pub name: String,
    /// The input.
    pub input: RpcArgBuilder,
    /// The output.
    pub output: RpcArgBuilder,
    /// The options of the operation.
    pub options: Vec<ProtoOption>,
}

/// The unresolved input or output of an operation.
#[derive(Default, Debug, PartialEq)]
pub struct RpcArgBuilder {
    /// Whether it is a stream.
    pub stream: bool,
    /// The name of the message.
    pub message: String,
}

/// The builder that a catalogued item was made from.
#[derive(Debug)]
pub enum ItemSource<'a> {
    /// A message.
    Message(&'a MessageBuilder),
    /// An enum.
    Enum(&'a EnumBuilder),
    /// A service.
    Service(&'a ServiceBuilder),
}

/// One entry of the catalogue.
#[derive(Debug)]
pub struct CacheData<'a> {
    /// The kind of the item.
    pub item_type: ItemType,
    /// The position that the item will have in the arena of its kind.
    pub final_idx: usize,
    /// The full name of the item.
    pub full_name: String,
    /// The package or message that holds the item.
    pub parent: TypeParent,
    /// The builder of the item.
    pub source: ItemSource<'a>,
}

/// The catalogue: every message, enum and service that was entered, in the
/// order of the walk.
#[derive(Debug)]
pub struct BuildCache<'a> {
    /// The entries.
    pub items: Vec<CacheData<'a>>,
    /// The number of messages and enums among the entries.
    pub n_types: usize,
    /// The number of services among the entries.
    pub n_services: usize,
}

impl<'a> View for CacheData<'a> {
    type V = ItemNode;

    open spec fn view(&self) -> ItemNode {
        ItemNode {
            kind: self.item_type,
            full_name: self.full_name@,
            index: self.final_idx as int,
            parent: self.parent,
            source: match self.source {
                ItemSource::Message(m) => Source::Message(*m),
                ItemSource::Enum(e) => Source::Enum(*e),
                ItemSource::Service(s) => Source::Service(*s),
            },
        }
    }
}

impl<'a> View for BuildCache<'a> {
    type V = Seq<ItemNode>;

    open spec fn view(&self) -> Seq<ItemNode> {
        views(self.items@)
    }
}

/// The characters of an optional scope.
pub open spec fn scope_text(scope: Option<&str>) -> Option<Seq<char>> {
    match scope {
        Some(s) => Some(s@),
        None => None,
    }
}

/// The multiplicity of a field. See [`multiplicity_of`].
pub fn resolve_multiplicity(
    repeated: bool,
    field_type: &FieldTypeBuilder,
    options: &Vec<ProtoOption>,
) -> (r: Multiplicity)
    ensures
        r == multiplicity_of(repeated, *field_type, views(options@)),
{
    // If this isn't a repeated field, the multiplicity is always Single.
    if !repeated {
        return Multiplicity::Single;
    }
    // Repeated field. Non-scalar fields are never packed.
    match field_type {
        FieldTypeBuilder::Unknown(_) => {
            return Multiplicity::Repeated;
        },
        FieldTypeBuilder::Builtin(vt) => {
            if vt.wire_type() == 2 {
                return Multiplicity::Repeated;
            }
        },
    }
    // Scalar field: the first option named `packed` decides.
    let ghost p = |o: ProtoOptionView| o.name == "packed"@;
    let mut i: usize = 0;
    while i < options.len()
        invariant
            i <= options.len(),
            repeated,
            *field_type is Builtin,
            field_type->Builtin_0.spec_wire_type() != 2,
            p == |o: ProtoOptionView| o.name == "packed"@,
            forall|j: int| 0 <= j < i ==> !p(views(options@)[j]),
        decreases options.len() - i,
    {
        let opt = &options[i];
        if same_text(opt.name.as_str(), "packed") {
            proof {
                lemma_first_match_is(views(options@), p, i as int);
                assert(views(options@)[i as int] == opt@);
            }
            let packed: bool = match &opt.value {
                Constant::Bool(b) => *b,
                _ => false,
            };
            return if packed {
                Multiplicity::RepeatedPacked
            } else {
                Multiplicity::Repeated
            };
        }
        i += 1;
    }
    proof {
        lemma_first_match_none(views(options@), p);
    }
    Multiplicity::RepeatedPacked
}

impl MessageRef {
    /// The reference to the message of a catalogue entry.
    pub fn from(data: &CacheData) -> (r: Self)
        requires
            data.item_type == ItemType::Message,
        ensures
            r == MessageRef::at(data.final_idx as int),
    {
        MessageRef(InternalRef(data.final_idx))
    }
}

impl EnumRef {
    /// The reference to the enum of a catalogue entry.
    pub fn from(data: &CacheData) -> (r: Self)
        requires
            data.item_type == ItemType::Enum,
        ensures
            r == EnumRef::at(data.final_idx as int),
    {
        EnumRef(InternalRef(data.final_idx))
    }
}

impl<'a> BuildCache<'a> {
    /// The counts of the catalogue are those of its entries.
    pub open spec fn wf(&self) -> bool {
        &&& self.n_types == count_types(self@)
        &&& self.n_services == count_services(self@)
        &&& self.n_types + self.n_services == self.items@.len()
    }

    /// The empty catalogue.
    pub fn new() -> (r: Self)
        ensures
            r@ == Seq::<ItemNode>::empty(),
            r.wf(),
    {
        let r = BuildCache { items: Vec::new(), n_types: 0, n_services: 0 };
        assert(r@ =~= Seq::<ItemNode>::empty());
        r
    }

    /// The position of the entry with the given full name.
    pub fn find(&self, full_name: &str) -> (r: Option<usize>)
        ensures
            match find_item(self@, full_name@) {
                Some(i) => r is Some && r.unwrap() as int == i && 0 <= i < self.items@.len(),
                None => r is None,
            },
    {
        let ghost p = |n: ItemNode| n.full_name == full_name@;
        let mut i: usize = 0;
        while i < self.items.len()
            invariant
                i <= self.items.len(),
                p == |n: ItemNode| n.full_name == full_name@,
                forall|j: int| 0 <= j < i ==> !p(self@[j]),
            decreases self.items.len() - i,
        {
            if same_text(self.items[i].full_name.as_str(), full_name) {
                proof {
                    lemma_first_match_is(self@, p, i as int);
                }
                return Some(i);
            }
            i += 1;
        }
        proof {
            lemma_first_match_none(self@, p);
        }
        None
    }

    /// The entry with the given full name.
    pub fn type_by_full_name(&self, full_name: &str) -> (r: Option<&CacheData<'a>>)
        ensures
            match find_item(self@, full_name@) {
                Some(i) => r is Some && 0 <= i < self.items@.len() && *r.unwrap()
                    == self.items@[i],
                None => r is None,
            },
    {
        match self.find(full_name) {
            Some(i) => Some(&self.items[i]),
            None => None,
        }
    }

    /// The entry of the given kind of arena at the given position of that
    /// arena: a message or an enum in the arena of types, a service in that
    /// of services.
    pub fn type_by_idx(&self, item_type: ItemType, idx: usize) -> (r: Option<&CacheData<'a>>)
        ensures
            match first_match(
                self@,
                |n: ItemNode|
                    (n.kind == ItemType::Service) == (item_type == ItemType::Service) && n.index
                        == idx,
            ) {
                Some(i) => r is Some && 0 <= i < self.items@.len() && *r.unwrap()
                    == self.items@[i],
                None => r is None,
            },
    {
        let service: bool = matches!(item_type, ItemType::Service);
        let ghost p = |n: ItemNode|
            (n.kind == ItemType::Service) == (item_type == ItemType::Service) && n.index == idx;
        let mut i: usize = 0;
        while i < self.items.len()
            invariant
                i <= self.items.len(),
                service == (item_type == ItemType::Service),
                p == |n: ItemNode|
                    (n.kind == ItemType::Service) == (item_type == ItemType::Service) && n.index
                        == idx,
                forall|j: int| 0 <= j < i ==> !p(self@[j]),
            decreases self.items.len() - i,
        {
            let data = &self.items[i];
            if matches!(data.item_type, ItemType::Service) == service && data.final_idx == idx {
                proof {
                    lemma_first_match_is(self@, p, i as int);
                }
                return Some(data);
            }
            i += 1;
        }
        proof {
            lemma_first_match_none(self@, p);
        }
        None
    }

    /// Scoped lookup of a type name that stands in the scope `current_path`.
    /// See [`scoped_lookup`].
    pub fn resolve_type(&self, relative_name: &str, current_path: &str) -> (r: Option<
        &CacheData<'a>,
    >)
        ensures
            match scoped_lookup(self@, relative_name@, current_path@) {
                Some(i) => r is Some && 0 <= i < self.items@.len() && *r.unwrap()
                    == self.items@[i],
                None => r is None,
            },
    {
        let n: usize = relative_name.unicode_len();
        if n > 0 && relative_name.get_char(0) == '.' {
            let rest = relative_name.substring_char(1, n);
            assert(rest@ =~= relative_name@.skip(1));
            return self.type_by_full_name(rest);
        }
        let mut path: &str = current_path;
        loop
            invariant
                !(relative_name@.len() > 0 && relative_name@[0] == '.'),
                climb(self@, relative_name@, current_path@) == climb(
                    self@,
                    relative_name@,
                    path@,
                ),
            decreases path@.len(),
        {
            let lookup = join_path(path, relative_name);
            match self.type_by_full_name(lookup.as_str()) {
                Some(t) => {
                    return Some(t);
                },
                None => {},
            }
            if path.unicode_len() == 0 {
                return None;
            }
            proof {
                lemma_enclosing_scope_shorter(path@);
            }
            path = parent_scope(path);
        }
    }

    /// Enters an item; refused where its full name is taken.
    pub fn enter(&mut self, node: CacheData<'a>) -> (r: Result<(), ParseError>)
        requires
            old(self).wf(),
            node.item_type == ItemType::Service ==> node.final_idx == old(self).n_services,
            node.item_type != ItemType::Service ==> node.final_idx == old(self).n_types,
        ensures
            match enter(old(self)@, node@) {
                Ok(cat) => r is Ok && final(self)@ == cat && final(self).wf(),
                Err(e) => r is Err && r->Err_0@ == e,
            },
    {
        match self.find(node.full_name.as_str()) {
            Some(_) => {
                return Err(ParseError::DuplicateType { name: node.full_name });
            },
            None => {},
        }
        let service: bool = matches!(node.item_type, ItemType::Service);
        self.items.push(node);
        assert(self.items.len() <= usize::MAX);
        if service {
            self.n_services = self.n_services + 1;
        } else {
            self.n_types = self.n_types + 1;
        }
        proof {
            assert(self@ =~= old(self)@.push(node@));
            assert(self@.drop_last() =~= old(self)@);
        }
        Ok(())
    }

    /// The references to the types that the given package or message holds.
    pub fn children_of(&self, parent: TypeParent) -> (r: Vec<TypeRef>)
        ensures
            r@ == children(self@, parent),
    {
        let mut out: Vec<TypeRef> = Vec::new();
        let mut i: usize = 0;
        while i < self.items.len()
            invariant
                i <= self.items.len(),
                out@ == children(self@.take(i as int), parent),
            decreases self.items.len() - i,
        {
            let data = &self.items[i];
            proof {
                assert(self@.take(i + 1).drop_last() =~= self@.take(i as int));
            }
            if !matches!(data.item_type, ItemType::Service) && data.parent == parent {
                if matches!(data.item_type, ItemType::Enum) {
                    out.push(TypeRef::Enum(EnumRef(InternalRef(data.final_idx))));
                } else {
                    out.push(TypeRef::Message(MessageRef(InternalRef(data.final_idx))));
                }
            }
            i += 1;
        }
        assert(self@.take(self.items@.len() as int) =~= self@);
        out
    }

    /// The positions of the services of the given package.
    pub fn services_of(&self, package: PackageRef) -> (r: Vec<usize>)
        ensures
            r@ == package_services(self@, package),
    {
        let mut out: Vec<usize> = Vec::new();
        let mut i: usize = 0;
        while i < self.items.len()
            invariant
                i <= self.items.len(),
                out@ == package_services(self@.take(i as int), package),
            decreases self.items.len() - i,
        {
            let data = &self.items[i];
            proof {
                assert(self@.take(i + 1).drop_last() =~= self@.take(i as int));
            }
            if matches!(data.item_type, ItemType::Service) && data.parent == TypeParent::Package(
                package,
            ) {
                out.push(data.final_idx);
            }
            i += 1;
        }
        assert(self@.take(self.items@.len() as int) =~= self@);
        out
    }
}

/// The full name of an item called `name` in an optional scope.
pub fn name_in_scope(scope: Option<&str>, name: &str) -> (r: String)
    ensures
        r@ == scoped_name(scope_text(scope), name@),
{
    match scope {
        Some(s) => dotted(s, name),
        None => name.to_owned(),
    }
}

impl MessageBuilder {
    /// Enters the message and then, in order, the types inside it into the
    /// catalogue.
    pub fn populate<'a>(
        &'a self,
        cache: &mut BuildCache<'a>,
        scope: Option<&str>,
        parent: TypeParent,
    ) -> (r: Result<(), ParseError>)
        requires
            old(cache).wf(),
        ensures
            match message_entries(old(cache)@, *self, scope_text(scope), parent) {
                Ok(cat) => r is Ok && final(cache)@ == cat && final(cache).wf(),
                Err(e) => r is Err && r->Err_0@ == e,
            },
        decreases self,
    {
        let full_name = name_in_scope(scope, self.name.as_str());
        let index: usize = cache.n_types;
        let node = CacheData {
            item_type: ItemType::Message,
            final_idx: index,
            full_name: full_name.clone(),
            parent,
            source: ItemSource::Message(self),
        };
        match cache.enter(node) {
            Ok(()) => {},
            Err(e) => {
                return Err(e);
            },
        }
        let me = MessageRef(InternalRef(index));
        let ghost whole = message_entries(old(cache)@, *self, scope_text(scope), parent);
        assert(self.inner_types@.skip(0) =~= self.inner_types@);
        let mut i: usize = 0;
        while i < self.inner_types.len()
            invariant
                i <= self.inner_types.len(),
                cache.wf(),
                me == MessageRef::at(index as int),
                whole == message_entries(old(cache)@, *self, scope_text(scope), parent),
                whole == inner_entries(
                    cache@,
                    self.inner_types@.skip(i as int),
                    full_name@,
                    me,
                ),
            decreases self.inner_types.len() - i,
        {
            let ghost rest = self.inner_types@.skip(i as int);
            proof {
                assert(rest[0] == self.inner_types@[i as int]);
                assert(rest.skip(1) =~= self.inner_types@.skip(i + 1));
            }
            let result = match &self.inner_types[i] {
                InnerTypeBuilder::Message(m) => m.populate(
                    cache,
                    Some(full_name.as_str()),
                    TypeParent::Message(me),
                ),
                InnerTypeBuilder::Enum(e) => e.populate(
                    cache,
                    Some(full_name.as_str()),
                    TypeParent::Message(me),
                ),
            };
            match result {
                Ok(()) => {},
                Err(e) => {
                    return Err(e);
                },
            }
            i += 1;
        }
        Ok(())
    }

    /// The resolved form of the message that the catalogue entry `self_data`
    /// stands for.
    pub fn build(&self, self_data: &CacheData, cache: &BuildCache) -> (r: Result<
        MessageInfo,
        ParseError,
    >)
        ensures
            match built_message(cache@, self_data@, *self) {
                Ok(m) => r is Ok && r->Ok_0@ == m,
                Err(e) => r is Err && r->Err_0@ == e,
            },
    {
        let scope = self_data.full_name.as_str();
        let mut fields: BTreeMap<u64, MessageField> = BTreeMap::new();
        proof {
            lemma_no_fields();
        }
        match build_fields(&self.fields, scope, cache, None, &mut fields) {
            Ok(()) => {},
            Err(e) => {
                return Err(e);
            },
        }
        let ghost plain = fields_in_order(fields@);
        let mut k: usize = 0;
        while k < self.oneofs.len()
            invariant
                k <= self.oneofs.len(),
                scope@ == self_data@.full_name,
                built_fields(cache@, scope@, self.fields@, None, Seq::empty()) == Ok::<
                    Seq<MessageFieldView>,
                    ParseErrorView,
                >(plain),
                member_fields(cache@, scope@, self.oneofs@, 0, plain) == member_fields(
                    cache@,
                    scope@,
                    self.oneofs@,
                    k as int,
                    fields_in_order(fields@),
                ),
            decreases self.oneofs.len() - k,
        {
            let oneof_ref = OneofRef(InternalRef(k));
            match build_fields(&self.oneofs[k].fields, scope, cache, Some(oneof_ref), &mut fields) {
                Ok(()) => {},
                Err(e) => {
                    return Err(e);
                },
            }
            k += 1;
        }
        let mut oneofs: Vec<Oneof> = Vec::new();
        let mut k: usize = 0;
        while k < self.oneofs.len()
            invariant
                k <= self.oneofs.len(),
                oneofs@.len() == k,
                forall|x: int|
                    0 <= x < k ==> (#[trigger] oneofs@[x])@ == built_oneofs(
                        self.oneofs@,
                        fields_in_order(fields@),
                    )[x],
            decreases self.oneofs.len() - k,
        {
            let oneof_ref = OneofRef(InternalRef(k));
            let o = &self.oneofs[k];
            oneofs.push(
                Oneof {
                    name: o.name.clone(),
                    self_ref: oneof_ref,
                    fields: numbers_of(&fields, oneof_ref),
                    options: copy_options(&o.options),
                },
            );
            k += 1;
        }
        let me = MessageRef(InternalRef(self_data.final_idx));
        let info = MessageInfo {
            name: self.name.clone(),
            full_name: self_data.full_name.clone(),
            parent: self_data.parent,
            self_ref: me,
            oneofs,
            inner_types: cache.children_of(TypeParent::Message(me)),
            fields,
        };
        assert(info@.oneofs =~= built_oneofs(self.oneofs@, fields_in_order(fields@)));
        Ok(info)
    }
}

/// The numbers of the fields that hold `r` as their `oneof`, in the order of
/// the fields.
pub fn numbers_of(fields: &BTreeMap<u64, MessageField>, r: OneofRef) -> (out: Vec<u64>)
    ensures
        out@ == oneof_numbers(fields_in_order(fields@), r),
{
    let mut out: Vec<u64> = Vec::new();
    let ghost all = fields_in_order(fields@);
    let listed = fields_of(fields);
    let mut i: usize = 0;
    while i < listed.len()
        invariant
            i <= listed.len(),
            all == fields_in_order(fields@),
            listed@.len() == all.len(),
            forall|j: int| 0 <= j < listed@.len() ==> listed@[j]@ == all[j],
            out@ == oneof_numbers(all.take(i as int), r),
        decreases listed.len() - i,
    {
        proof {
            assert(all.take(i + 1).drop_last() =~= all.take(i as int));
        }
        let f = listed[i];
        let member: bool = match f.oneof {
            Some(o) => o == r,
            None => false,
        };
        if member {
            out.push(f.number);
        }
        i += 1;
    }
    assert(all.take(listed@.len() as int) =~= all);
    out
}

/// Resolves the fields in order and puts each among `done`; the first field
/// that cannot be resolved ends it.
pub fn build_fields(
    builders: &Vec<FieldBuilder>,
    scope: &str,
    cache: &BuildCache,
    oneof: Option<OneofRef>,
    done: &mut BTreeMap<u64, MessageField>,
) -> (r: Result<(), ParseError>)
    ensures
        match built_fields(cache@, scope@, builders@, oneof, fields_in_order(old(done)@)) {
            Ok(fields) => r is Ok && fields_in_order(final(done)@) == fields,
            Err(e) => r is Err && r->Err_0@ == e,
        },
{
    let mut i: usize = 0;
    assert(builders@.skip(0) =~= builders@);
    while i < builders.len()
        invariant
            i <= builders.len(),
            built_fields(cache@, scope@, builders@, oneof, fields_in_order(old(done)@)) == built_fields(
                cache@,
                scope@,
                builders@.skip(i as int),
                oneof,
                fields_in_order(done@),
            ),
        decreases builders.len() - i,
    {
        let ghost rest = builders@.skip(i as int);
        proof {
            assert(rest[0] == builders@[i as int]);
            assert(rest.skip(1) =~= builders@.skip(i + 1));
        }
        match builders[i].build_in(scope, cache, oneof) {
            Ok(f) => {
                put_in(done, f);
            },
            Err(e) => {
                return Err(e);
            },
        }
        i += 1;
    }
    Ok(())
}

impl FieldBuilder {
    /// The resolved form of the field of the message that the catalogue
    /// entry `self_data` stands for.
    pub fn build(&self, self_data: &CacheData, cache: &BuildCache, oneof: Option<OneofRef>) -> (r:
        Result<MessageField, ParseError>)
        ensures
            match built_field(cache@, self_data@.full_name, *self, oneof) {
                Ok(f) => r is Ok && r->Ok_0@ == f,
                Err(e) => r is Err && r->Err_0@ == e,
            },
    {
        self.build_in(self_data.full_name.as_str(), cache, oneof)
    }

    /// The resolved form of the field of a message with the given full name.
    pub fn build_in(&self, scope: &str, cache: &BuildCache, oneof: Option<OneofRef>) -> (r: Result<
        MessageField,
        ParseError,
    >)
        ensures
            match built_field(cache@, scope@, *self, oneof) {
                Ok(f) => r is Ok && r->Ok_0@ == f,
                Err(e) => r is Err && r->Err_0@ == e,
            },
    {
        let multiplicity = resolve_multiplicity(self.repeated, &self.field_type, &self.options);
        let field_type = match self.field_type.build_in(scope, cache) {
            Ok(t) => t,
            Err(e) => {
                return Err(e);
            },
        };
        Ok(
            MessageField {
                name: self.name.clone(),
                number: self.number,
                multiplicity,
                field_type,
                oneof,
                options: copy_options(&self.options),
            },
        )
    }
}

impl FieldTypeBuilder {
    /// The value type that the type of a field resolves to, for a field of
    /// the message that the catalogue entry `self_data` stands for.
    pub fn build(&self, self_data: &CacheData, cache: &BuildCache) -> (r: Result<
        ValueType,
        ParseError,
    >)
        ensures
            match resolved_field_type(cache@, *self, self_data@.full_name) {
                Ok(t) => r == Ok::<ValueType, ParseError>(t),
                Err(e) => r is Err && r->Err_0@ == e,
            },
    {
        self.build_in(self_data.full_name.as_str(), cache)
    }

    /// The value type that the type of a field resolves to, for a field of a
    /// message with the given full name.
    pub fn build_in(&self, scope: &str, cache: &BuildCache) -> (r: Result<ValueType, ParseError>)
        ensures
            match resolved_field_type(cache@, *self, scope@) {
                Ok(t) => r == Ok::<ValueType, ParseError>(t),
                Err(e) => r is Err && r->Err_0@ == e,
            },
    {
        match self {
            FieldTypeBuilder::Builtin(vt) => Ok(*vt),
            FieldTypeBuilder::Unknown(s) => {
                match cache.resolve_type(s.as_str(), scope) {
                    Some(t) => match t.item_type {
                        ItemType::Message => Ok(ValueType::Message(MessageRef::from(t))),
                        ItemType::Enum => Ok(ValueType::Enum(EnumRef::from(t))),
                        ItemType::Service => Err(
                            ParseError::InvalidTypeKind {
                                name: s.clone(),
                                context: "field type",
                                expected: ItemType::Message,
                                actual: ItemType::Service,
                            },
                        ),
                    },
                    None => Err(
                        ParseError::TypeNotFound { name: s.clone(), context: scope.to_owned() },
                    ),
                }
            },
        }
    }
}

impl InnerTypeBuilder {
    /// Enters the inner type, and the types inside it, into the catalogue.
    pub fn populate<'a>(
        &'a self,
        cache: &mut BuildCache<'a>,
        scope: &str,
        parent: MessageRef,
    ) -> (r: Result<(), ParseError>)
        requires
            old(cache).wf(),
        ensures
            match (match *self {
                InnerTypeBuilder::Message(m) => message_entries(
                    old(cache)@,
                    m,
                    Some(scope@),
                    TypeParent::Message(parent),
                ),
                InnerTypeBuilder::Enum(e) => enter(
                    old(cache)@,
                    enum_node(
                        e,
                        Some(scope@),
                        TypeParent::Message(parent),
                        count_types(old(cache)@),
                    ),
                ),
            }) {
                Ok(cat) => r is Ok && final(cache)@ == cat && final(cache).wf(),
                Err(e) => r is Err && r->Err_0@ == e,
            },
    {
        match self {
            InnerTypeBuilder::Message(m) => m.populate(
                cache,
                Some(scope),
                TypeParent::Message(parent),
            ),
            InnerTypeBuilder::Enum(e) => e.populate(cache, Some(scope), TypeParent::Message(parent)),
        }
    }
}

impl EnumBuilder {
    /// Enters the enum into the catalogue.
    pub fn populate<'a>(
        &'a self,
        cache: &mut BuildCache<'a>,
        scope: Option<&str>,
        parent: TypeParent,
    ) -> (r: Result<(), ParseError>)
        requires
            old(cache).wf(),
        ensures
            match enter(
                old(cache)@,
                enum_node(*self, scope_text(scope), parent, count_types(old(cache)@)),
            ) {
                Ok(cat) => r is Ok && final(cache)@ == cat && final(cache).wf(),
                Err(e) => r is Err && r->Err_0@ == e,
            },
    {
        let full_name = name_in_scope(scope, self.name.as_str());
        let node = CacheData {
            item_type: ItemType::Enum,
            final_idx: cache.n_types,
            full_name,
            parent,
            source: ItemSource::Enum(self),
        };
        cache.enter(node)
    }

    /// The resolved form of the enum that the catalogue entry `self_data`
    /// stands for.
    pub fn build(&self, self_data: &CacheData, _cache: &BuildCache) -> (r: Result<
        EnumInfo,
        ParseError,
    >)
        ensures
            r is Ok,
            r->Ok_0@ == built_enum(self_data@, *self),
    {
        let mut fields: BTreeMap<i64, EnumField> = BTreeMap::new();
        let ghost all = views(self.fields@);
        proof {
            lemma_no_values();
        }
        assert(values_in_order(fields@) =~= ordered_enum_fields(all.take(0)));
        let mut i: usize = 0;
        while i < self.fields.len()
            invariant
                i <= self.fields.len(),
                all == views(self.fields@),
                values_in_order(fields@) == ordered_enum_fields(all.take(i as int)),
            decreases self.fields.len() - i,
        {
            proof {
                assert(all.take(i + 1).drop_last() =~= all.take(i as int));
            }
            let f = &self.fields[i];
            put_value_in(&mut fields, f.clone());
            i += 1;
        }
        assert(all.take(self.fields@.len() as int) =~= all);
        Ok(
            EnumInfo {
                name: self.name.clone(),
                full_name: self_data.full_name.clone(),
                parent: self_data.parent,
                self_ref: EnumRef(InternalRef(self_data.final_idx)),
                fields,
            },
        )
    }
}

impl ServiceBuilder {
    /// Enters the service into the catalogue.
    pub fn populate<'a>(
        &'a self,
        cache: &mut BuildCache<'a>,
        scope: Option<&str>,
        package: PackageRef,
    ) -> (r: Result<(), ParseError>)
        requires
            old(cache).wf(),
        ensures
            match enter(
                old(cache)@,
                service_node(*self, scope_text(scope), package, count_services(old(cache)@)),
            ) {
                Ok(cat) => r is Ok && final(cache)@ == cat && final(cache).wf(),
                Err(e) => r is Err && r->Err_0@ == e,
            },
    {
        let full_name = name_in_scope(scope, self.name.as_str());
        let node = CacheData {
            item_type: ItemType::Service,
            final_idx: cache.n_services,
            full_name,
            parent: TypeParent::Package(package),
            source: ItemSource::Service(self),
        };
        cache.enter(node)
    }

    /// The resolved form of the service that the catalogue entry `self_data`
    /// stands for.
    pub fn build(&self, self_data: &CacheData, cache: &BuildCache) -> (r: Result<
        Service,
        ParseError,
    >)
        ensures
            match built_service(cache@, self_data@, *self) {
                Ok(s) => r is Ok && r->Ok_0@ == s,
                Err(e) => r is Err && r->Err_0@ == e,
            },
    {
        let mut rpcs: Vec<Rpc> = Vec::new();
        assert(views(rpcs@) =~= Seq::<RpcView>::empty());
        let mut i: usize = 0;
        assert(self.rpcs@.skip(0) =~= self.rpcs@);
        while i < self.rpcs.len()
            invariant
                i <= self.rpcs.len(),
                built_rpcs(cache@, self_data@.full_name, self.rpcs@, Seq::empty()) == built_rpcs(
                    cache@,
                    self_data@.full_name,
                    self.rpcs@.skip(i as int),
                    views(rpcs@),
                ),
            decreases self.rpcs.len() - i,
        {
            let ghost rest = self.rpcs@.skip(i as int);
            let ghost done = views(rpcs@);
            proof {
                assert(rest[0] == self.rpcs@[i as int]);
                assert(rest.skip(1) =~= self.rpcs@.skip(i + 1));
            }
            match self.rpcs[i].build(self_data, cache) {
                Ok(rpc) => {
                    rpcs.push(rpc);
                    assert(views(rpcs@) =~= done.push(rpc@));
                },
                Err(e) => {
                    return Err(e);
                },
            }
            i += 1;
        }
        let parent = match self_data.parent {
            TypeParent::Package(p) => p,
            TypeParent::Message(m) => PackageRef(m.0),
        };
        let service = Service {
            name: self.name.clone(),
            full_name: self_data.full_name.clone(),
            self_ref: ServiceRef(InternalRef(self_data.final_idx)),
            parent,
            rpcs,
            options: Vec::new(),
        };
        assert(service@.options =~= Seq::<ProtoOptionView>::empty());
        Ok(service)
    }
}

impl RpcBuilder {
    /// The resolved form of the operation of the service that the catalogue
    /// entry `self_data` stands for.
    pub fn build(&self, self_data: &CacheData, cache: &BuildCache) -> (r: Result<Rpc, ParseError>)
        ensures
            match built_rpc(cache@, self_data@.full_name, *self) {
                Ok(rpc) => r is Ok && r->Ok_0@ == rpc,
                Err(e) => r is Err && r->Err_0@ == e,
            },
    {
        let input = match self.input.build(self_data, cache) {
            Ok(a) => a,
            Err(e) => {
                return Err(e);
            },
        };
        let output = match self.output.build(self_data, cache) {
            Ok(a) => a,
            Err(e) => {
                return Err(e);
            },
        };
        let rpc = Rpc { name: self.name.clone(), input, output, options: Vec::new() };
        assert(rpc@.options =~= Seq::<ProtoOptionView>::empty());
        Ok(rpc)
    }
}

impl RpcArgBuilder {
    /// The resolved form of the input or output of an operation of the
    /// service that the catalogue entry `rpc_data` stands for.
    pub fn build(&self, rpc_data: &CacheData, cache: &BuildCache) -> (r: Result<
        RpcArg,
        ParseError,
    >)
        ensures
            match built_rpc_arg(cache@, rpc_data@.full_name, *self) {
                Ok(arg) => r == Ok::<RpcArg, ParseError>(arg),
                Err(e) => r is Err && r->Err_0@ == e,
            },
    {
        // Fetch the type data from the cache so we can figure out the type reference.
        let self_data = match cache.resolve_type(
            self.message.as_str(),
            rpc_data.full_name.as_str(),
        ) {
            Some(data) => data,
            None => {
                return Err(
                    ParseError::TypeNotFound {
                        name: self.message.clone(),
                        context: rpc_data.full_name.clone(),
                    },
                );
            },
        };
        // All rpc input/output types must be messages.
        if !matches!(self_data.item_type, ItemType::Message) {
            return Err(
                ParseError::InvalidTypeKind {
                    name: self.message.clone(),
                    context: "service input/output",
                    expected: ItemType::Message,
                    actual: self_data.item_type,
                },
            );
        }
        Ok(RpcArg { stream: self.stream, message: MessageRef::from(self_data) })
    }
}

impl PackageBuilder {
    /// Enters the top-level items of the file, and the types inside them,
    /// into the catalogue.
    pub fn populate<'a>(&'a self, cache: &mut BuildCache<'a>, package: PackageRef) -> (r: Result<
        (),
        ParseError,
    >)
        requires
            old(cache).wf(),
        ensures
            match file_entries(old(cache)@, self.types@, option_text(self.name), package) {
                Ok(cat) => r is Ok && final(cache)@ == cat && final(cache).wf(),
                Err(e) => r is Err && r->Err_0@ == e,
            },
    {
        let scope: Option<&str> = match &self.name {
            Some(n) => Some(n.as_str()),
            None => None,
        };
        let mut i: usize = 0;
        assert(self.types@.skip(0) =~= self.types@);
        while i < self.types.len()
            invariant
                i <= self.types.len(),
                cache.wf(),
                scope_text(scope) == option_text(self.name),
                file_entries(old(cache)@, self.types@, option_text(self.name), package)
                    == file_entries(
                    cache@,
                    self.types@.skip(i as int),
                    option_text(self.name),
                    package,
                ),
            decreases self.types.len() - i,
        {
            let ghost rest = self.types@.skip(i as int);
            proof {
                assert(rest[0] == self.types@[i as int]);
                assert(rest.skip(1) =~= self.types@.skip(i + 1));
            }
            let result = match &self.types[i] {
                ProtobufItemBuilder::Type(ProtobufTypeBuilder::Message(m)) => m.populate(
                    cache,
                    scope,
                    TypeParent::Package(package),
                ),
                ProtobufItemBuilder::Type(ProtobufTypeBuilder::Enum(e)) => e.populate(
                    cache,
                    scope,
                    TypeParent::Package(package),
                ),
                ProtobufItemBuilder::Service(s) => s.populate(cache, scope, package),
            };
            match result {
                Ok(()) => {},
                Err(e) => {
                    return Err(e);
                },
            }
            i += 1;
        }
        Ok(())
    }
}

/// The names as package names.
pub open spec fn name_texts(names: Seq<Option<String>>) -> Seq<Option<Seq<char>>> {
    Seq::new(names.len(), |i: int| option_text(names[i]))
}

/// The package that a file with the given name belongs to; the name is
/// added to `names` where it is new.
pub fn package_index(names: &mut Vec<Option<String>>, name: &Option<String>) -> (r: PackageRef)
    ensures
        r == package_for(name_texts(old(names)@), option_text(*name)),
        name_texts(final(names)@) == (if name_position(
            name_texts(old(names)@),
            option_text(*name),
        ) is Some {
            name_texts(old(names)@)
        } else {
            name_texts(old(names)@).push(option_text(*name))
        }),
{
    let ghost wanted = option_text(*name);
    let ghost before = name_texts(names@);
    let ghost p = is_name(wanted);
    let mut i: usize = 0;
    while i < names.len()
        invariant
            i <= names.len(),
            *names == *old(names),
            before == name_texts(names@),
            wanted == option_text(*name),
            p == is_name(wanted),
            forall|j: int| 0 <= j < i ==> !p(before[j]),
        decreases names.len() - i,
    {
        if same_name(&names[i], name) {
            proof {
                lemma_first_match_is(before, p, i as int);
            }
            return PackageRef(InternalRef(i));
        }
        i += 1;
    }
    proof {
        lemma_first_match_none(before, p);
        assert(name_position(before, wanted) is None);
    }
    let index: usize = names.len();
    let copy: Option<String> = match name {
        Some(n) => Some(n.clone()),
        None => None,
    };
    names.push(copy);
    assert(name_texts(names@) =~= before.push(wanted));
    PackageRef(InternalRef(index))
}

/// Whether every one of the fields has a plain type: a name, or a builtin
/// type that refers to no message.
pub fn fields_are_plain(fields: &Vec<FieldBuilder>) -> (r: bool)
    ensures
        r == plain_fields(fields@),
{
    let mut j: usize = 0;
    while j < fields.len()
        invariant
            j <= fields.len(),
            forall|k: int| 0 <= k < j ==> plain_type((#[trigger] fields@[k]).field_type),
        decreases fields.len() - j,
    {
        match &fields[j].field_type {
            FieldTypeBuilder::Builtin(ValueType::Message(_)) => {
                assert(!plain_type(fields@[j as int].field_type));
                return false;
            },
            _ => {},
        }
        j += 1;
    }
    true
}

impl MessageBuilder {
    /// Whether every field of the message and of the messages inside it has
    /// a plain type.
    pub fn is_plain(&self) -> (r: bool)
        ensures
            r == plain_tree(*self),
        decreases self,
    {
        if !fields_are_plain(&self.fields) {
            return false;
        }
        let mut k: usize = 0;
        while k < self.oneofs.len()
            invariant
                k <= self.oneofs.len(),
                forall|x: int| 0 <= x < k ==> plain_fields((#[trigger] self.oneofs@[x]).fields@),
            decreases self.oneofs.len() - k,
        {
            if !fields_are_plain(&self.oneofs[k].fields) {
                assert(!plain_fields(self.oneofs@[k as int].fields@));
                return false;
            }
            k += 1;
        }
        assert(plain_message(*self));
        let mut i: usize = 0;
        assert(self.inner_types@.skip(0) =~= self.inner_types@);
        while i < self.inner_types.len()
            invariant
                i <= self.inner_types.len(),
                plain_message(*self),
                plain_inners(self.inner_types@) == plain_inners(self.inner_types@.skip(i as int)),
            decreases self.inner_types.len() - i,
        {
            let ghost rest = self.inner_types@.skip(i as int);
            proof {
                assert(rest[0] == self.inner_types@[i as int]);
                assert(rest.skip(1) =~= self.inner_types@.skip(i + 1));
            }
            match &self.inner_types[i] {
                InnerTypeBuilder::Message(m) => {
                    if !m.is_plain() {
                        return false;
                    }
                },
                InnerTypeBuilder::Enum(_) => {},
            }
            i += 1;
        }
        true
    }
}

impl PackageBuilder {
    /// Whether every field of the messages of the file has a plain type.
    pub fn is_plain(&self) -> (r: bool)
        ensures
            r == plain_items(self.types@),
    {
        let mut i: usize = 0;
        assert(self.types@.skip(0) =~= self.types@);
        while i < self.types.len()
            invariant
                i <= self.types.len(),
                plain_items(self.types@) == plain_items(self.types@.skip(i as int)),
            decreases self.types.len() - i,
        {
            let ghost rest = self.types@.skip(i as int);
            proof {
                assert(rest[0] == self.types@[i as int]);
                assert(rest.skip(1) =~= self.types@.skip(i + 1));
            }
            match &self.types[i] {
                ProtobufItemBuilder::Type(ProtobufTypeBuilder::Message(m)) => {
                    if !m.is_plain() {
                        return false;
                    }
                },
                _ => {},
            }
            i += 1;
        }
        true
    }
}

impl ContextBuilder {
    /// Whether every field of the messages of the files has a plain type: a
    /// name, or a builtin type that refers to no message. The context that
    /// such files resolve to has no dangling reference.
    pub fn is_plain(&self) -> (r: bool)
        ensures
            r == plain_forest(self.packages@, 0),
    {
        let mut i: usize = 0;
        while i < self.packages.len()
            invariant
                i <= self.packages.len(),
                plain_forest(self.packages@, 0) == plain_forest(self.packages@, i as int),
            decreases self.packages.len() - i,
        {
            if !self.packages[i].is_plain() {
                return false;
            }
            i += 1;
        }
        true
    }

    /// Resolves the files into a context. See [`resolved`].
    pub fn build(self) -> (r: Result<Context, ParseError>)
        ensures
            match resolved(self.packages@) {
                Ok(ctx) => r is Ok && r->Ok_0@ == ctx,
                Err(e) => r is Err && r->Err_0@ == e,
            },
            r is Ok ==> r->Ok_0@.wf() && r->Ok_0@.fields_ascending() && r->Ok_0@.oneofs_linked(),
            r is Ok && plain_forest(self.packages@, 0) ==> r->Ok_0@.refs_resolved(),
    {
        let files = &self.packages;
        let mut cache = BuildCache::new();
        let mut names: Vec<Option<String>> = Vec::new();
        assert(name_texts(names@) =~= package_names(files@.take(0)));
        let mut i: usize = 0;
        while i < files.len()
            invariant
                i <= files.len(),
                cache.wf(),
                files@ == self.packages@,
                name_texts(names@) == package_names(files@.take(i as int)),
                catalogue(files@) == forest_entries(cache@, files@, i as int),
            decreases files.len() - i,
        {
            let file = &files[i];
            proof {
                assert(files@.take(i + 1).drop_last() =~= files@.take(i as int));
                assert(files@.take(i + 1).last() == files@[i as int]);
            }
            let package = package_index(&mut names, &file.name);
            match file.populate(&mut cache, package) {
                Ok(()) => {},
                Err(e) => {
                    return Err(e);
                },
            }
            i += 1;
        }
        assert(files@.take(files@.len() as int) =~= files@);
        // Every name is catalogued: resolve the messages and enums, in the
        // order of the catalogue.
        let mut types: Vec<TypeInfo> = Vec::new();
        assert(views(types@) =~= Seq::<TypeInfoView>::empty());
        let mut j: usize = 0;
        while j < cache.items.len()
            invariant
                j <= cache.items.len(),
                catalogue(self.packages@) == Ok::<Seq<ItemNode>, ParseErrorView>(cache@),
                built_types(cache@, 0, Seq::empty()) == built_types(
                    cache@,
                    j as int,
                    views(types@),
                ),
            decreases cache.items.len() - j,
        {
            let data = &cache.items[j];
            let ghost done = views(types@);
            match data.source {
                ItemSource::Message(m) => {
                    match m.build(data, &cache) {
                        Ok(t) => {
                            types.push(TypeInfo::Message(t));
                            assert(views(types@) =~= done.push(TypeInfoView::Message(t@)));
                        },
                        Err(e) => {
                            return Err(e);
                        },
                    }
                },
                ItemSource::Enum(e) => {
                    match e.build(data, &cache) {
                        Ok(t) => {
                            types.push(TypeInfo::Enum(t));
                            assert(views(types@) =~= done.push(TypeInfoView::Enum(t@)));
                        },
                        Err(e) => {
                            return Err(e);
                        },
                    }
                },
                ItemSource::Service(_) => {},
            }
            j += 1;
        }
        // Then the services.
        let mut services: Vec<Service> = Vec::new();
        assert(views(services@) =~= Seq::<ServiceView>::empty());
        let mut j: usize = 0;
        while j < cache.items.len()
            invariant
                j <= cache.items.len(),
                catalogue(self.packages@) == Ok::<Seq<ItemNode>, ParseErrorView>(cache@),
                built_types(cache@, 0, Seq::empty()) == Ok::<Seq<TypeInfoView>, ParseErrorView>(
                    views(types@),
                ),
                built_services(cache@, 0, Seq::empty()) == built_services(
                    cache@,
                    j as int,
                    views(services@),
                ),
            decreases cache.items.len() - j,
        {
            let data = &cache.items[j];
            let ghost done = views(services@);
            match data.source {
                ItemSource::Service(s) => {
                    match s.build(data, &cache) {
                        Ok(t) => {
                            services.push(t);
                            assert(views(services@) =~= done.push(t@));
                        },
                        Err(e) => {
                            return Err(e);
                        },
                    }
                },
                _ => {},
            }
            j += 1;
        }
        // Then the packages, each listing what it holds.
        let mut packages: Vec<Package> = Vec::new();
        let mut k: usize = 0;
        while k < names.len()
            invariant
                k <= names.len(),
                packages@.len() == k,
                name_texts(names@) == package_names(files@),
                files@ == self.packages@,
                forall|x: int|
                    0 <= x < k ==> (#[trigger] packages@[x])@ == built_packages(files@, cache@)[x],
            decreases names.len() - k,
        {
            let package = PackageRef(InternalRef(k));
            let name: Option<String> = match &names[k] {
                Some(n) => Some(n.clone()),
                None => None,
            };
            assert(option_text(name) == name_texts(names@)[k as int]);
            packages.push(
                Package {
                    name,
                    self_ref: package,
                    types: cache.children_of(TypeParent::Package(package)),
                    services: cache.services_of(package),
                },
            );
            k += 1;
        }
        let ctx = Context { packages, types, services };
        proof {
            assert(cache.items.len() <= usize::MAX);
            assert(names.len() <= usize::MAX);
            assert(ctx@.packages =~= built_packages(files@, cache@));
            lemma_resolved_well_formed(self.packages@);
            lemma_resolved_fields_ascending(self.packages@);
            lemma_resolved_oneofs_linked(self.packages@);
            if plain_forest(self.packages@, 0) {
                lemma_resolved_references(self.packages@);
            }
        }
        Ok(ctx)
    }
}

} // verus!
