//! What resolving a forest of schema files yields, as mathematics.
//!
//! Resolution has two phases. The first walks every file depth-first and
//! enters each message, enum and service under its full name into one
//! catalogue; a name that is already there ends the walk. The second turns
//! each catalogued item into its resolved form, looking up every type name
//! that a field or an operation mentions from the scope where it stands
//! outwards.

use vstd::prelude::*;

use crate::context::{
    ConstantView, ContextView, EnumFieldView, EnumInfoView, EnumRef, ItemType, MessageFieldView,
    MessageInfoView, MessageRef, Multiplicity, OneofRef, OneofView, PackageRef, PackageView,
    ParseError, ProtoOptionView, RpcArg, RpcView, ServiceRef, ServiceView, TypeInfoView, TypeParent,
    TypeRef, ValueType, views,
};
use crate::context::builder::{
    EnumBuilder, FieldBuilder, FieldTypeBuilder, InnerTypeBuilder, MessageBuilder, OneofBuilder,
    PackageBuilder, ProtobufItemBuilder, ProtobufTypeBuilder, RpcArgBuilder, RpcBuilder,
    ServiceBuilder,
};
use crate::search::first_match;
use crate::text::{enclosing_scope, lemma_enclosing_scope_shorter, option_text, qualified};

verus! {

/// The view of a [`ParseError`].
pub enum ParseErrorView {
    SyntaxError { source: Seq<char> },
    DuplicateType { name: Seq<char> },
    TypeNotFound { name: Seq<char>, context: Seq<char> },
    InvalidTypeKind { name: Seq<char>, context: Seq<char>, expected: ItemType, actual: ItemType },
}

impl View for ParseError {
    type V = ParseErrorView;

    open spec fn view(&self) -> ParseErrorView {
        match self {
            ParseError::SyntaxError { source } => ParseErrorView::SyntaxError { source: source@ },
            ParseError::DuplicateType { name } => ParseErrorView::DuplicateType { name: name@ },
            ParseError::TypeNotFound { name, context } => ParseErrorView::TypeNotFound {
                name: name@,
                context: context@,
            },
            ParseError::InvalidTypeKind { name, context, expected, actual } =>
                ParseErrorView::InvalidTypeKind {
                name: name@,
                context: context@,
                expected: *expected,
                actual: *actual,
            },
        }
    }
}

/// The builder that a catalogued item was made from.
pub enum Source {
    Message(MessageBuilder),
    Enum(EnumBuilder),
    Service(ServiceBuilder),
}

/// One entry of the catalogue: a message, an enum or a service under its full
/// name, with the position it will have in the arena of its kind and the
/// package or message that holds it.
pub struct ItemNode {
    pub kind: ItemType,
    pub full_name: Seq<char>,
    pub index: int,
    pub parent: TypeParent,
    pub source: Source,
}

/// `name` under an optional scope: `scope.name`, or `name` alone.
pub open spec fn scoped_name(scope: Option<Seq<char>>, name: Seq<char>) -> Seq<char> {
    match scope {
        Some(s) => s + seq!['.'] + name,
        None => name,
    }
}

/// The number of messages and enums among the entries.
pub open spec fn count_types(nodes: Seq<ItemNode>) -> int
    decreases nodes.len(),
{
    if nodes.len() == 0 {
        0
    } else {
        count_types(nodes.drop_last()) + if nodes.last().kind == ItemType::Service {
            0int
        } else {
            1int
        }
    }
}

/// The number of services among the entries.
pub open spec fn count_services(nodes: Seq<ItemNode>) -> int
    decreases nodes.len(),
{
    if nodes.len() == 0 {
        0
    } else {
        count_services(nodes.drop_last()) + if nodes.last().kind == ItemType::Service {
            1int
        } else {
            0int
        }
    }
}

/// The position of the entry with the given full name.
pub open spec fn find_item(cat: Seq<ItemNode>, name: Seq<char>) -> Option<int> {
    first_match(cat, |n: ItemNode| n.full_name == name)
}

/// Enters one item into the catalogue; refused where its full name is
/// taken.
pub open spec fn enter(cat: Seq<ItemNode>, node: ItemNode) -> Result<Seq<ItemNode>, ParseErrorView> {
    if find_item(cat, node.full_name) is Some {
        Err(ParseErrorView::DuplicateType { name: node.full_name })
    } else {
        Ok(cat.push(node))
    }
}

/// The entry of a message.
pub open spec fn message_node(
    m: MessageBuilder,
    scope: Option<Seq<char>>,
    parent: TypeParent,
    index: int,
) -> ItemNode {
    ItemNode {
        kind: ItemType::Message,
        full_name: scoped_name(scope, m.name@),
        index,
        parent,
        source: Source::Message(m),
    }
}

/// The entry of an enum.
pub open spec fn enum_node(
    e: EnumBuilder,
    scope: Option<Seq<char>>,
    parent: TypeParent,
    index: int,
) -> ItemNode {
    ItemNode {
        kind: ItemType::Enum,
        full_name: scoped_name(scope, e.name@),
        index,
        parent,
        source: Source::Enum(e),
    }
}

/// The entry of a service.
pub open spec fn service_node(
    s: ServiceBuilder,
    scope: Option<Seq<char>>,
    package: PackageRef,
    index: int,
) -> ItemNode {
    ItemNode {
        kind: ItemType::Service,
        full_name: scoped_name(scope, s.name@),
        index,
        parent: TypeParent::Package(package),
        source: Source::Service(s),
    }
}

/// Enters a message and then, in order, the types inside it.
pub open spec fn message_entries(
    cat: Seq<ItemNode>,
    m: MessageBuilder,
    scope: Option<Seq<char>>,
    parent: TypeParent,
) -> Result<Seq<ItemNode>, ParseErrorView>
    decreases m,
{
    let index = count_types(cat);
    match enter(cat, message_node(m, scope, parent, index)) {
        Ok(next) => inner_entries(
            next,
            m.inner_types@,
            scoped_name(scope, m.name@),
            MessageRef::at(index),
        ),
        Err(e) => Err(e),
    }
}

/// Enters the types inside a message, in order.
pub open spec fn inner_entries(
    cat: Seq<ItemNode>,
    inners: Seq<InnerTypeBuilder>,
    scope: Seq<char>,
    parent: MessageRef,
) -> Result<Seq<ItemNode>, ParseErrorView>
    decreases inners,
{
    if inners.len() == 0 {
        Ok(cat)
    } else {
        let first = match inners[0] {
            InnerTypeBuilder::Message(m) => message_entries(
                cat,
                m,
                Some(scope),
                TypeParent::Message(parent),
            ),
            InnerTypeBuilder::Enum(e) => enter(
                cat,
                enum_node(e, Some(scope), TypeParent::Message(parent), count_types(cat)),
            ),
        };
        match first {
            Ok(next) => inner_entries(next, inners.skip(1), scope, parent),
            Err(e) => Err(e),
        }
    }
}

/// Enters one top-level item of a file.
pub open spec fn item_entries(
    cat: Seq<ItemNode>,
    item: ProtobufItemBuilder,
    scope: Option<Seq<char>>,
    package: PackageRef,
) -> Result<Seq<ItemNode>, ParseErrorView> {
    match item {
        ProtobufItemBuilder::Type(ProtobufTypeBuilder::Message(m)) => message_entries(
            cat,
            m,
            scope,
            TypeParent::Package(package),
        ),
        ProtobufItemBuilder::Type(ProtobufTypeBuilder::Enum(e)) => enter(
            cat,
            enum_node(e, scope, TypeParent::Package(package), count_types(cat)),
        ),
        ProtobufItemBuilder::Service(s) => enter(
            cat,
            service_node(s, scope, package, count_services(cat)),
        ),
    }
}

/// Enters the top-level items of a file, in order.
pub open spec fn file_entries(
    cat: Seq<ItemNode>,
    items: Seq<ProtobufItemBuilder>,
    scope: Option<Seq<char>>,
    package: PackageRef,
) -> Result<Seq<ItemNode>, ParseErrorView>
    decreases items.len(),
{
    if items.len() == 0 {
        Ok(cat)
    } else {
        match item_entries(cat, items[0], scope, package) {
            Ok(next) => file_entries(next, items.skip(1), scope, package),
            Err(e) => Err(e),
        }
    }
}

/// The names of the packages of the files, each once, in the order in which
/// they first occur.
pub open spec fn package_names(files: Seq<PackageBuilder>) -> Seq<Option<Seq<char>>>
    decreases files.len(),
{
    if files.len() == 0 {
        Seq::empty()
    } else {
        let before = package_names(files.drop_last());
        let name = option_text(files.last().name);
        if name_position(before, name) is Some {
            before
        } else {
            before.push(name)
        }
    }
}

/// The position of a package name among the given names.
pub open spec fn name_position(names: Seq<Option<Seq<char>>>, name: Option<Seq<char>>) -> Option<
    int,
> {
    first_match(names, is_name(name))
}

/// The property of being the given package name.
pub open spec fn is_name(name: Option<Seq<char>>) -> spec_fn(Option<Seq<char>>) -> bool {
    |n: Option<Seq<char>>| n == name
}

/// The package that a file with the given name belongs to, among the given
/// package names: the position of its name, or the next free position.
pub open spec fn package_for(names: Seq<Option<Seq<char>>>, name: Option<Seq<char>>) -> PackageRef {
    match name_position(names, name) {
        Some(i) => PackageRef::at(i),
        None => PackageRef::at(names.len() as int),
    }
}

/// Enters the items of the files from position `from` on; `names` are the
/// package names of the files before.
pub open spec fn forest_entries(
    cat: Seq<ItemNode>,
    files: Seq<PackageBuilder>,
    from: int,
) -> Result<Seq<ItemNode>, ParseErrorView>
    decreases files.len() - from,
{
    if from < 0 || from >= files.len() {
        Ok(cat)
    } else {
        let file = files[from];
        let name = option_text(file.name);
        match file_entries(cat, file.types@, name, package_for(package_names(files.take(from)), name)) {
            Ok(next) => forest_entries(next, files, from + 1),
            Err(e) => Err(e),
        }
    }
}

/// The catalogue of a forest of files, or the duplicate that ended the walk.
pub open spec fn catalogue(files: Seq<PackageBuilder>) -> Result<Seq<ItemNode>, ParseErrorView> {
    forest_entries(Seq::empty(), files, 0)
}

/// Looks a name up from a scope outwards: as `scope.name`, then with the
/// last segment of the scope dropped, and so on, at last as `name` alone.
/// The first hit wins.
pub open spec fn climb(cat: Seq<ItemNode>, name: Seq<char>, scope: Seq<char>) -> Option<int>
    decreases scope.len(),
{
    match find_item(cat, qualified(scope, name)) {
        Some(i) => Some(i),
        None => if scope.len() == 0 {
            None
        } else {
            proof {
                lemma_enclosing_scope_shorter(scope);
            }
            climb(cat, name, enclosing_scope(scope))
        },
    }
}

/// Scoped lookup of a type name that stands in the given scope. A name with
/// a leading dot is absolute and is looked up without it; any other name is
/// looked up from the scope outwards.
pub open spec fn scoped_lookup(cat: Seq<ItemNode>, name: Seq<char>, scope: Seq<char>) -> Option<
    int,
> {
    if name.len() > 0 && name[0] == '.' {
        find_item(cat, name.skip(1))
    } else {
        climb(cat, name, scope)
    }
}

/// The value type that the type of a field resolves to.
pub open spec fn resolved_field_type(cat: Seq<ItemNode>, ft: FieldTypeBuilder, scope: Seq<char>) -> Result<
    ValueType,
    ParseErrorView,
> {
    match ft {
        FieldTypeBuilder::Builtin(vt) => Ok(vt),
        FieldTypeBuilder::Unknown(s) => match scoped_lookup(cat, s@, scope) {
            Some(i) => match cat[i].kind {
                ItemType::Message => Ok(ValueType::Message(MessageRef::at(cat[i].index))),
                ItemType::Enum => Ok(ValueType::Enum(EnumRef::at(cat[i].index))),
                ItemType::Service => Err(
                    ParseErrorView::InvalidTypeKind {
                        name: s@,
                        context: "field type"@,
                        expected: ItemType::Message,
                        actual: ItemType::Service,
                    },
                ),
            },
            None => Err(ParseErrorView::TypeNotFound { name: s@, context: scope }),
        },
    }
}

/// The multiplicity of a field.
///
/// A field that is not repeated is single. A repeated field of a message
/// or enum type, or of a length-delimited type, is repeated and never
/// packed. Any other repeated field is packed, unless its first option named
/// `packed` has a value other than `true`.
pub open spec fn multiplicity_of(
    repeated: bool,
    ft: FieldTypeBuilder,
    options: Seq<ProtoOptionView>,
) -> Multiplicity {
    if !repeated {
        Multiplicity::Single
    } else if ft is Unknown {
        Multiplicity::Repeated
    } else if ft->Builtin_0.spec_wire_type() == 2 {
        Multiplicity::Repeated
    } else {
        match first_match(options, |o: ProtoOptionView| o.name == "packed"@) {
            Some(i) => if options[i].value == ConstantView::Bool(true) {
                Multiplicity::RepeatedPacked
            } else {
                Multiplicity::Repeated
            },
            None => Multiplicity::RepeatedPacked,
        }
    }
}

/// The resolved form of one field.
pub open spec fn built_field(
    cat: Seq<ItemNode>,
    scope: Seq<char>,
    fb: FieldBuilder,
    oneof: Option<OneofRef>,
) -> Result<MessageFieldView, ParseErrorView> {
    match resolved_field_type(cat, fb.field_type, scope) {
        Ok(field_type) => Ok(
            MessageFieldView {
                name: fb.name@,
                number: fb.number,
                field_type,
                multiplicity: multiplicity_of(fb.repeated, fb.field_type, views(fb.options@)),
                options: views(fb.options@),
                oneof,
            },
        ),
        Err(e) => Err(e),
    }
}

/// Puts a field among fields that stand in ascending order of their numbers:
/// in the place of the field with the same number, if there is one, and in
/// its place by number otherwise.
pub open spec fn put_field(fields: Seq<MessageFieldView>, f: MessageFieldView) -> Seq<
    MessageFieldView,
> {
    match first_match(fields, |g: MessageFieldView| g.number >= f.number) {
        Some(i) => if fields[i].number == f.number {
            fields.update(i, f)
        } else {
            fields.insert(i, f)
        },
        None => fields.push(f),
    }
}

/// Resolves the fields in order and puts each among `done`.
pub open spec fn built_fields(
    cat: Seq<ItemNode>,
    scope: Seq<char>,
    fbs: Seq<FieldBuilder>,
    oneof: Option<OneofRef>,
    done: Seq<MessageFieldView>,
) -> Result<Seq<MessageFieldView>, ParseErrorView>
    decreases fbs.len(),
{
    if fbs.len() == 0 {
        Ok(done)
    } else {
        match built_field(cat, scope, fbs[0], oneof) {
            Ok(f) => built_fields(cat, scope, fbs.skip(1), oneof, put_field(done, f)),
            Err(e) => Err(e),
        }
    }
}

/// Resolves the member fields of the `oneof`s from position `from` on, each
/// holding the position of its `oneof` as its reference, and puts each among
/// `done`.
pub open spec fn member_fields(
    cat: Seq<ItemNode>,
    scope: Seq<char>,
    oneofs: Seq<OneofBuilder>,
    from: int,
    done: Seq<MessageFieldView>,
) -> Result<Seq<MessageFieldView>, ParseErrorView>
    decreases oneofs.len() - from,
{
    if from < 0 || from >= oneofs.len() {
        Ok(done)
    } else {
        match built_fields(cat, scope, oneofs[from].fields@, Some(OneofRef::at(from)), done) {
            Ok(next) => member_fields(cat, scope, oneofs, from + 1, next),
            Err(e) => Err(e),
        }
    }
}

/// The numbers of the fields that hold `r` as their `oneof`, in the order of
/// the fields.
pub open spec fn oneof_numbers(fields: Seq<MessageFieldView>, r: OneofRef) -> Seq<u64>
    decreases fields.len(),
{
    if fields.len() == 0 {
        Seq::empty()
    } else {
        let before = oneof_numbers(fields.drop_last(), r);
        if fields.last().oneof == Some(r) {
            before.push(fields.last().number)
        } else {
            before
        }
    }
}

/// The resolved `oneof`s of a message with the given resolved fields.
pub open spec fn built_oneofs(oneofs: Seq<OneofBuilder>, fields: Seq<MessageFieldView>) -> Seq<
    OneofView,
> {
    Seq::new(
        oneofs.len(),
        |k: int|
            OneofView {
                name: oneofs[k].name@,
                self_ref: OneofRef::at(k),
                fields: oneof_numbers(fields, OneofRef::at(k)),
                options: views(oneofs[k].options@),
            },
    )
}

/// The reference to a catalogued type.
pub open spec fn node_ref(node: ItemNode) -> TypeRef {
    if node.kind == ItemType::Enum {
        TypeRef::Enum(EnumRef::at(node.index))
    } else {
        TypeRef::Message(MessageRef::at(node.index))
    }
}

/// The references to the catalogued types that the given package or message
/// holds, in the order of the catalogue.
pub open spec fn children(cat: Seq<ItemNode>, parent: TypeParent) -> Seq<TypeRef>
    decreases cat.len(),
{
    if cat.len() == 0 {
        Seq::empty()
    } else {
        let before = children(cat.drop_last(), parent);
        if cat.last().kind != ItemType::Service && cat.last().parent == parent {
            before.push(node_ref(cat.last()))
        } else {
            before
        }
    }
}

/// The positions of the catalogued services of the given package, in the
/// order of the catalogue.
pub open spec fn package_services(cat: Seq<ItemNode>, package: PackageRef) -> Seq<usize>
    decreases cat.len(),
{
    if cat.len() == 0 {
        Seq::empty()
    } else {
        let before = package_services(cat.drop_last(), package);
        if cat.last().kind == ItemType::Service && cat.last().parent == TypeParent::Package(
            package,
        ) {
            before.push(cat.last().index as usize)
        } else {
            before
        }
    }
}

/// The resolved form of a catalogued message: its plain fields and then the
/// member fields of its `oneof`s, resolved in that order and put in ascending
/// order of their numbers, a later field taking the place of an earlier one
/// with the same number.
pub open spec fn built_message(cat: Seq<ItemNode>, node: ItemNode, m: MessageBuilder) -> Result<
    MessageInfoView,
    ParseErrorView,
> {
    match built_fields(cat, node.full_name, m.fields@, None, Seq::empty()) {
        Ok(plain) => match member_fields(cat, node.full_name, m.oneofs@, 0, plain) {
            Ok(fields) => Ok(
                MessageInfoView {
                    name: m.name@,
                    full_name: node.full_name,
                    parent: node.parent,
                    self_ref: MessageRef::at(node.index),
                    oneofs: built_oneofs(m.oneofs@, fields),
                    inner_types: children(cat, TypeParent::Message(MessageRef::at(node.index))),
                    fields,
                },
            ),
            Err(e) => Err(e),
        },
        Err(e) => Err(e),
    }
}

/// Puts a field among enum fields that stand in ascending order of their
/// values: in the place of the field with the same value, if there is one,
/// and in its place by value otherwise.
pub open spec fn put_enum_field(fields: Seq<EnumFieldView>, f: EnumFieldView) -> Seq<EnumFieldView> {
    match first_match(fields, |g: EnumFieldView| g.value >= f.value) {
        Some(i) => if fields[i].value == f.value {
            fields.update(i, f)
        } else {
            fields.insert(i, f)
        },
        None => fields.push(f),
    }
}

/// The enum fields in ascending order of their values, a later field taking
/// the place of an earlier one with the same value.
pub open spec fn ordered_enum_fields(fields: Seq<EnumFieldView>) -> Seq<EnumFieldView>
    decreases fields.len(),
{
    if fields.len() == 0 {
        Seq::empty()
    } else {
        put_enum_field(ordered_enum_fields(fields.drop_last()), fields.last())
    }
}

/// The resolved form of a catalogued enum.
pub open spec fn built_enum(node: ItemNode, e: EnumBuilder) -> EnumInfoView {
    EnumInfoView {
        name: e.name@,
        full_name: node.full_name,
        parent: node.parent,
        self_ref: EnumRef::at(node.index),
        fields: ordered_enum_fields(views(e.fields@)),
    }
}

/// The resolved form of the input or output of an operation: the message
/// that its name resolves to from the scope of the service.
pub open spec fn built_rpc_arg(cat: Seq<ItemNode>, scope: Seq<char>, arg: RpcArgBuilder) -> Result<
    RpcArg,
    ParseErrorView,
> {
    match scoped_lookup(cat, arg.message@, scope) {
        Some(i) => if cat[i].kind == ItemType::Message {
            Ok(RpcArg { message: MessageRef::at(cat[i].index), stream: arg.stream })
        } else {
            Err(
                ParseErrorView::InvalidTypeKind {
                    name: arg.message@,
                    context: "service input/output"@,
                    expected: ItemType::Message,
                    actual: cat[i].kind,
                },
            )
        },
        None => Err(ParseErrorView::TypeNotFound { name: arg.message@, context: scope }),
    }
}

/// The resolved form of one operation: its input, then its output.
pub open spec fn built_rpc(cat: Seq<ItemNode>, scope: Seq<char>, rpc: RpcBuilder) -> Result<
    RpcView,
    ParseErrorView,
> {
    match built_rpc_arg(cat, scope, rpc.input) {
        Ok(input) => match built_rpc_arg(cat, scope, rpc.output) {
            Ok(output) => Ok(RpcView { name: rpc.name@, input, output, options: Seq::empty() }),
            Err(e) => Err(e),
        },
        Err(e) => Err(e),
    }
}

/// Resolves the operations in order, behind `done`.
pub open spec fn built_rpcs(
    cat: Seq<ItemNode>,
    scope: Seq<char>,
    rpcs: Seq<RpcBuilder>,
    done: Seq<RpcView>,
) -> Result<Seq<RpcView>, ParseErrorView>
    decreases rpcs.len(),
{
    if rpcs.len() == 0 {
        Ok(done)
    } else {
        match built_rpc(cat, scope, rpcs[0]) {
            Ok(r) => built_rpcs(cat, scope, rpcs.skip(1), done.push(r)),
            Err(e) => Err(e),
        }
    }
}

/// The package that holds a catalogued service.
pub open spec fn holding_package(parent: TypeParent) -> PackageRef {
    match parent {
        TypeParent::Package(p) => p,
        TypeParent::Message(m) => PackageRef::at(m.index()),
    }
}

/// The resolved form of a catalogued service.
pub open spec fn built_service(cat: Seq<ItemNode>, node: ItemNode, s: ServiceBuilder) -> Result<
    ServiceView,
    ParseErrorView,
> {
    match built_rpcs(cat, node.full_name, s.rpcs@, Seq::empty()) {
        Ok(rpcs) => Ok(
            ServiceView {
                name: s.name@,
                full_name: node.full_name,
                self_ref: ServiceRef::at(node.index),
                parent: holding_package(node.parent),
                rpcs,
                options: Seq::empty(),
            },
        ),
        Err(e) => Err(e),
    }
}

/// Resolves the messages and enums of the catalogue from position `from`
/// on, in order, behind `done`.
pub open spec fn built_types(cat: Seq<ItemNode>, from: int, done: Seq<TypeInfoView>) -> Result<
    Seq<TypeInfoView>,
    ParseErrorView,
>
    decreases cat.len() - from,
{
    if from < 0 || from >= cat.len() {
        Ok(done)
    } else {
        match cat[from].source {
            Source::Message(m) => match built_message(cat, cat[from], m) {
                Ok(t) => built_types(cat, from + 1, done.push(TypeInfoView::Message(t))),
                Err(e) => Err(e),
            },
            Source::Enum(e) => built_types(
                cat,
                from + 1,
                done.push(TypeInfoView::Enum(built_enum(cat[from], e))),
            ),
            Source::Service(_) => built_types(cat, from + 1, done),
        }
    }
}

/// Resolves the services of the catalogue from position `from` on, in order,
/// behind `done`.
pub open spec fn built_services(cat: Seq<ItemNode>, from: int, done: Seq<ServiceView>) -> Result<
    Seq<ServiceView>,
    ParseErrorView,
>
    decreases cat.len() - from,
{
    if from < 0 || from >= cat.len() {
        Ok(done)
    } else {
        match cat[from].source {
            Source::Service(s) => match built_service(cat, cat[from], s) {
                Ok(t) => built_services(cat, from + 1, done.push(t)),
                Err(e) => Err(e),
            },
            _ => built_services(cat, from + 1, done),
        }
    }
}

/// The packages of a forest of files with the given catalogue: one for each
/// package name, holding its position as its reference and listing the
/// top-level types and the services of all the files with that name.
pub open spec fn built_packages(files: Seq<PackageBuilder>, cat: Seq<ItemNode>) -> Seq<PackageView> {
    let names = package_names(files);
    Seq::new(
        names.len(),
        |k: int|
            PackageView {
                name: names[k],
                self_ref: PackageRef::at(k),
                types: children(cat, TypeParent::Package(PackageRef::at(k))),
                services: package_services(cat, PackageRef::at(k)),
            },
    )
}

/// What resolving a forest of files yields: a context, or the first error in
/// the order of the work. The catalogue comes first; then every message and
/// enum, in the order of the catalogue; then every service.
pub open spec fn resolved(files: Seq<PackageBuilder>) -> Result<ContextView, ParseErrorView> {
    match catalogue(files) {
        Ok(cat) => match built_types(cat, 0, Seq::empty()) {
            Ok(types) => match built_services(cat, 0, Seq::empty()) {
                Ok(services) => Ok(
                    ContextView { packages: built_packages(files, cat), types, services },
                ),
                Err(e) => Err(e),
            },
            Err(e) => Err(e),
        },
        Err(e) => Err(e),
    }
}

/// Scoped resolution precedence: a name that is catalogued in the scope
/// where it is mentioned resolves to that entry, whatever entries of the
/// same short name stand in the scopes around it.
pub proof fn lemma_closest_scope_wins(cat: Seq<ItemNode>, name: Seq<char>, scope: Seq<char>)
    requires
        find_item(cat, qualified(scope, name)) is Some,
        !(name.len() > 0 && name[0] == '.'),
    ensures
        scoped_lookup(cat, name, scope) == find_item(cat, qualified(scope, name)),
{
}

/// Scoped resolution climbs: a name that is not catalogued in the scope
/// where it is mentioned resolves as it does in the enclosing scope.
pub proof fn lemma_lookup_climbs(cat: Seq<ItemNode>, name: Seq<char>, scope: Seq<char>)
    requires
        find_item(cat, qualified(scope, name)) is None,
        scope.len() > 0,
        !(name.len() > 0 && name[0] == '.'),
    ensures
        scoped_lookup(cat, name, scope) == scoped_lookup(cat, name, enclosing_scope(scope)),
{
}

/// Packed by default: a repeated field of a scalar type that is not
/// length-delimited is packed where it has no option named `packed`, and
/// where the first such option is `true`; it is repeated and not packed
/// where that option is anything else.
pub proof fn lemma_packed_by_default(vt: ValueType, options: Seq<ProtoOptionView>)
    requires
        vt.spec_wire_type() != 2,
    ensures
        ({
            let m = multiplicity_of(true, FieldTypeBuilder::Builtin(vt), options);
            let packed = first_match(options, |o: ProtoOptionView| o.name == "packed"@);
            &&& packed is None ==> m == Multiplicity::RepeatedPacked
            &&& packed is Some && options[packed.unwrap()].value == ConstantView::Bool(true) ==> m
                == Multiplicity::RepeatedPacked
            &&& packed is Some && options[packed.unwrap()].value != ConstantView::Bool(true) ==> m
                == Multiplicity::Repeated
        }),
        multiplicity_of(true, FieldTypeBuilder::Builtin(vt), Seq::empty())
            == Multiplicity::RepeatedPacked,
{
}

} // verus!
