//! Resolution leaves no reference dangling.
//!
//! Every message that a field of a resolved message refers to is a message
//! of the resolved context, so that a payload can be decoded against it. This
//! holds of schema trees whose builtin field types are the scalar types,
//! `string` and `bytes`, as the reader of schema text makes them.

use vstd::prelude::*;

use crate::context::{
    ItemType, MessageFieldView, MessageRef, OneofRef, PackageRef, TypeInfoView, TypeParent,
    ValueType,
};
use crate::context::builder::{
    FieldBuilder, FieldTypeBuilder, InnerTypeBuilder, MessageBuilder, PackageBuilder,
    ProtobufItemBuilder, ProtobufTypeBuilder,
};
use crate::context::resolve::{
    ItemNode, Source, built_enum, built_field, built_fields, built_message, built_types, catalogue,
    climb, count_services, count_types, enter, enum_node, file_entries, find_item, forest_entries,
    inner_entries, item_entries, member_fields, message_entries, message_node, package_for,
    package_names, put_field, resolved, scoped_lookup, scoped_name, service_node,
};
use crate::search::{first_match, lemma_first_match};
use crate::text::{enclosing_scope, lemma_enclosing_scope_shorter, option_text, qualified};

verus! {

/// The type of the field is a name or a builtin type that refers to no
/// message.
pub open spec fn plain_type(ft: FieldTypeBuilder) -> bool {
    match ft {
        FieldTypeBuilder::Builtin(vt) => !(vt is Message),
        FieldTypeBuilder::Unknown(_) => true,
    }
}

/// Every one of the fields has a plain type.
pub open spec fn plain_fields(fields: Seq<FieldBuilder>) -> bool {
    forall|j: int| 0 <= j < fields.len() ==> plain_type((#[trigger] fields[j]).field_type)
}

/// Every field of the message, in a `oneof` or not, has a plain type.
pub open spec fn plain_message(m: MessageBuilder) -> bool {
    &&& plain_fields(m.fields@)
    &&& forall|k: int| 0 <= k < m.oneofs@.len() ==> plain_fields((#[trigger] m.oneofs@[k]).fields@)
}

/// Every field of the message and of the messages inside it has a plain
/// type.
pub open spec fn plain_tree(m: MessageBuilder) -> bool
    decreases m,
{
    plain_message(m) && plain_inners(m.inner_types@)
}

/// Every field of the messages among the inner types, and of the messages
/// inside them, has a plain type.
pub open spec fn plain_inners(inners: Seq<InnerTypeBuilder>) -> bool
    decreases inners,
{
    if inners.len() == 0 {
        true
    } else {
        &&& match inners[0] {
            InnerTypeBuilder::Message(m) => plain_tree(m),
            InnerTypeBuilder::Enum(_) => true,
        }
        &&& plain_inners(inners.skip(1))
    }
}

/// Every field of the messages among the items has a plain type.
pub open spec fn plain_items(items: Seq<ProtobufItemBuilder>) -> bool
    decreases items.len(),
{
    if items.len() == 0 {
        true
    } else {
        &&& match items[0] {
            ProtobufItemBuilder::Type(ProtobufTypeBuilder::Message(m)) => plain_tree(m),
            _ => true,
        }
        &&& plain_items(items.skip(1))
    }
}

/// Every field of the messages of the files from position `from` on has a
/// plain type.
pub open spec fn plain_forest(files: Seq<PackageBuilder>, from: int) -> bool
    decreases files.len() - from,
{
    if from < 0 || from >= files.len() {
        true
    } else {
        plain_items(files[from].types@) && plain_forest(files, from + 1)
    }
}

/// The entry at position `i` is of the kind of its builder, and a message or
/// enum is numbered by its place among the messages and enums.
pub open spec fn node_numbered(cat: Seq<ItemNode>, i: int) -> bool {
    let n = cat[i];
    &&& n.kind == ItemType::Message <==> n.source is Message
    &&& n.kind == ItemType::Enum <==> n.source is Enum
    &&& n.kind == ItemType::Service <==> n.source is Service
    &&& n.kind != ItemType::Service ==> n.index == count_types(cat.take(i))
}

/// Every entry of the catalogue is of the kind of its builder, and the
/// messages and enums are numbered in order.
pub open spec fn well_numbered(cat: Seq<ItemNode>) -> bool {
    forall|i: int| 0 <= i < cat.len() ==> node_numbered(cat, i)
}

/// Every message of the catalogue has fields of plain types only.
pub open spec fn plain_catalogue(cat: Seq<ItemNode>) -> bool {
    forall|i: int|
        0 <= i < cat.len() && (#[trigger] cat[i]).source is Message ==> plain_message(
            cat[i].source->Message_0,
        )
}

/// The value type refers to no message, or to one of the catalogue.
pub open spec fn linked(cat: Seq<ItemNode>, vt: ValueType) -> bool {
    vt is Message ==> first_match(
        cat,
        |n: ItemNode| n.kind == ItemType::Message && n.index == vt->Message_0.index(),
    ) is Some
}

/// Every one of the fields refers to no message or to one of the catalogue.
pub open spec fn all_linked(cat: Seq<ItemNode>, fields: Seq<MessageFieldView>) -> bool {
    forall|j: int| 0 <= j < fields.len() ==> linked(cat, (#[trigger] fields[j]).field_type)
}

/// The resolved types stand at the positions that the catalogue gives the
/// first `upto` entries, each of the kind of its entry.
pub open spec fn kinds_match(cat: Seq<ItemNode>, upto: int, types: Seq<TypeInfoView>) -> bool {
    forall|i: int|
        0 <= i < upto && (#[trigger] cat[i]).kind != ItemType::Service ==> 0 <= cat[i].index
            < types.len() && (types[cat[i].index] is Message <==> cat[i].kind
            == ItemType::Message)
}

/// Every resolved message has fields that refer to no message or to one of
/// the catalogue.
pub open spec fn types_linked(cat: Seq<ItemNode>, types: Seq<TypeInfoView>) -> bool {
    forall|k: int|
        0 <= k < types.len() && (#[trigger] types[k]) is Message ==> all_linked(
            cat,
            types[k]->Message_0.fields,
        )
}

pub proof fn lemma_count_bounds(cat: Seq<ItemNode>)
    ensures
        0 <= count_types(cat) <= cat.len(),
        0 <= count_services(cat) <= cat.len(),
    decreases cat.len(),
{
    if cat.len() > 0 {
        lemma_count_bounds(cat.drop_last());
    }
}

/// Entering a well-made entry keeps the catalogue well-numbered and plain.
pub proof fn lemma_enter_numbered(cat: Seq<ItemNode>, node: ItemNode)
    requires
        well_numbered(cat),
        enter(cat, node) is Ok,
        node.kind == ItemType::Message <==> node.source is Message,
        node.kind == ItemType::Enum <==> node.source is Enum,
        node.kind == ItemType::Service <==> node.source is Service,
        node.kind != ItemType::Service ==> node.index == count_types(cat),
    ensures
        well_numbered(enter(cat, node)->Ok_0),
        plain_catalogue(cat) && (node.source is Message ==> plain_message(node.source->Message_0))
            ==> plain_catalogue(enter(cat, node)->Ok_0),
{
    let next = cat.push(node);
    assert forall|i: int| 0 <= i < next.len() implies node_numbered(next, i) by {
        if i < cat.len() {
            assert(node_numbered(cat, i));
            assert(next.take(i) =~= cat.take(i));
        } else {
            assert(next.take(i) =~= cat);
        }
    }
    if plain_catalogue(cat) && (node.source is Message ==> plain_message(node.source->Message_0)) {
        assert forall|i: int| 0 <= i < next.len() && (#[trigger] next[i]).source is Message implies plain_message(
            next[i].source->Message_0,
        ) by {
            if i < cat.len() {
                assert(next[i] == cat[i]);
            }
        }
    }
}

/// Entering a message and the types inside it keeps the catalogue
/// well-numbered and plain.
pub proof fn lemma_message_entries_numbered(
    cat: Seq<ItemNode>,
    m: MessageBuilder,
    scope: Option<Seq<char>>,
    parent: TypeParent,
)
    requires
        well_numbered(cat),
        message_entries(cat, m, scope, parent) is Ok,
    ensures
        well_numbered(message_entries(cat, m, scope, parent)->Ok_0),
        plain_catalogue(cat) && plain_tree(m) ==> plain_catalogue(
            message_entries(cat, m, scope, parent)->Ok_0,
        ),
    decreases m,
{
    let index = count_types(cat);
    let node = message_node(m, scope, parent, index);
    lemma_enter_numbered(cat, node);
    let next = enter(cat, node)->Ok_0;
    lemma_inner_entries_numbered(next, m.inner_types@, scoped_name(scope, m.name@), MessageRef::at(index));
}

/// Entering the types inside a message keeps the catalogue well-numbered
/// and plain.
pub proof fn lemma_inner_entries_numbered(
    cat: Seq<ItemNode>,
    inners: Seq<InnerTypeBuilder>,
    scope: Seq<char>,
    parent: MessageRef,
)
    requires
        well_numbered(cat),
        inner_entries(cat, inners, scope, parent) is Ok,
    ensures
        well_numbered(inner_entries(cat, inners, scope, parent)->Ok_0),
        plain_catalogue(cat) && plain_inners(inners) ==> plain_catalogue(
            inner_entries(cat, inners, scope, parent)->Ok_0,
        ),
    decreases inners,
{
    if inners.len() > 0 {
        match inners[0] {
            InnerTypeBuilder::Message(m) => {
                lemma_message_entries_numbered(cat, m, Some(scope), TypeParent::Message(parent));
                let next = message_entries(cat, m, Some(scope), TypeParent::Message(parent))->Ok_0;
                lemma_inner_entries_numbered(next, inners.skip(1), scope, parent);
            },
            InnerTypeBuilder::Enum(e) => {
                let node = enum_node(e, Some(scope), TypeParent::Message(parent), count_types(cat));
                lemma_enter_numbered(cat, node);
                let next = enter(cat, node)->Ok_0;
                lemma_inner_entries_numbered(next, inners.skip(1), scope, parent);
            },
        }
    }
}

/// Entering the top-level items of a file keeps the catalogue well-numbered
/// and plain.
pub proof fn lemma_file_entries_numbered(
    cat: Seq<ItemNode>,
    items: Seq<ProtobufItemBuilder>,
    scope: Option<Seq<char>>,
    package: PackageRef,
)
    requires
        well_numbered(cat),
        file_entries(cat, items, scope, package) is Ok,
    ensures
        well_numbered(file_entries(cat, items, scope, package)->Ok_0),
        plain_catalogue(cat) && plain_items(items) ==> plain_catalogue(
            file_entries(cat, items, scope, package)->Ok_0,
        ),
    decreases items.len(),
{
    if items.len() > 0 {
        match items[0] {
            ProtobufItemBuilder::Type(ProtobufTypeBuilder::Message(m)) => {
                lemma_message_entries_numbered(cat, m, scope, TypeParent::Package(package));
            },
            ProtobufItemBuilder::Type(ProtobufTypeBuilder::Enum(e)) => {
                lemma_enter_numbered(
                    cat,
                    enum_node(e, scope, TypeParent::Package(package), count_types(cat)),
                );
            },
            ProtobufItemBuilder::Service(s) => {
                lemma_enter_numbered(cat, service_node(s, scope, package, count_services(cat)));
            },
        }
        let next = item_entries(cat, items[0], scope, package)->Ok_0;
        lemma_file_entries_numbered(next, items.skip(1), scope, package);
    }
}

/// Entering the files keeps the catalogue well-numbered and plain.
pub proof fn lemma_forest_entries_numbered(cat: Seq<ItemNode>, files: Seq<PackageBuilder>, from: int)
    requires
        well_numbered(cat),
        forest_entries(cat, files, from) is Ok,
    ensures
        well_numbered(forest_entries(cat, files, from)->Ok_0),
        plain_catalogue(cat) && plain_forest(files, from) ==> plain_catalogue(
            forest_entries(cat, files, from)->Ok_0,
        ),
    decreases files.len() - from,
{
    if 0 <= from < files.len() {
        let file = files[from];
        let name = option_text(file.name);
        let package = package_for(package_names(files.take(from)), name);
        lemma_file_entries_numbered(cat, file.types@, name, package);
        let next = file_entries(cat, file.types@, name, package)->Ok_0;
        lemma_forest_entries_numbered(next, files, from + 1);
    }
}

/// A name that scoped lookup finds is that of an entry of the catalogue.
pub proof fn lemma_scoped_lookup_bounds(cat: Seq<ItemNode>, name: Seq<char>, scope: Seq<char>)
    ensures
        match scoped_lookup(cat, name, scope) {
            Some(i) => 0 <= i < cat.len(),
            None => true,
        },
        match climb(cat, name, scope) {
            Some(i) => 0 <= i < cat.len(),
            None => true,
        },
    decreases scope.len(),
{
    lemma_first_match(cat, |n: ItemNode| n.full_name == name.skip(1));
    lemma_first_match(cat, |n: ItemNode| n.full_name == qualified(scope, name));
    if find_item(cat, qualified(scope, name)) is None && scope.len() > 0 {
        lemma_enclosing_scope_shorter(scope);
        lemma_scoped_lookup_bounds(cat, name, enclosing_scope(scope));
    }
}

/// The resolved form of a field of plain type refers to no message or to
/// one of the catalogue.
pub proof fn lemma_built_field_linked(
    cat: Seq<ItemNode>,
    scope: Seq<char>,
    fb: FieldBuilder,
    oneof: Option<OneofRef>,
)
    requires
        well_numbered(cat),
        cat.len() <= usize::MAX,
        plain_type(fb.field_type),
        built_field(cat, scope, fb, oneof) is Ok,
    ensures
        linked(cat, built_field(cat, scope, fb, oneof)->Ok_0.field_type),
{
    match fb.field_type {
        FieldTypeBuilder::Builtin(vt) => {},
        FieldTypeBuilder::Unknown(s) => {
            lemma_scoped_lookup_bounds(cat, s@, scope);
            let i = scoped_lookup(cat, s@, scope)->Some_0;
            if cat[i].kind == ItemType::Message {
                assert(node_numbered(cat, i));
                lemma_count_bounds(cat.take(i));
                let p = |n: ItemNode|
                    n.kind == ItemType::Message && n.index == MessageRef::at(cat[i].index).index();
                lemma_first_match(cat, p);
                assert(p(cat[i]));
            }
        },
    }
}

/// Putting a linked field among linked fields leaves them linked.
pub proof fn lemma_put_field_linked(
    cat: Seq<ItemNode>,
    fields: Seq<MessageFieldView>,
    f: MessageFieldView,
)
    requires
        all_linked(cat, fields),
        linked(cat, f.field_type),
    ensures
        all_linked(cat, put_field(fields, f)),
{
    let p = |g: MessageFieldView| g.number >= f.number;
    lemma_first_match(fields, p);
    let after = put_field(fields, f);
    assert forall|j: int| 0 <= j < after.len() implies linked(
        cat,
        (#[trigger] after[j]).field_type,
    ) by {
        match first_match(fields, p) {
            Some(i) => {
                if fields[i].number == f.number {
                    if j != i {
                        assert(after[j] == fields[j]);
                    }
                } else {
                    if j < i {
                        assert(after[j] == fields[j]);
                    } else if j > i {
                        assert(after[j] == fields[j - 1]);
                    }
                }
            },
            None => {
                if j < fields.len() {
                    assert(after[j] == fields[j]);
                }
            },
        }
    }
}

/// Resolving fields of plain types and putting them among linked fields
/// leaves them linked.
pub proof fn lemma_built_fields_linked(
    cat: Seq<ItemNode>,
    scope: Seq<char>,
    fbs: Seq<FieldBuilder>,
    oneof: Option<OneofRef>,
    done: Seq<MessageFieldView>,
)
    requires
        well_numbered(cat),
        cat.len() <= usize::MAX,
        plain_fields(fbs),
        all_linked(cat, done),
        built_fields(cat, scope, fbs, oneof, done) is Ok,
    ensures
        all_linked(cat, built_fields(cat, scope, fbs, oneof, done)->Ok_0),
    decreases fbs.len(),
{
    if fbs.len() > 0 {
        assert(plain_type(fbs[0].field_type));
        lemma_built_field_linked(cat, scope, fbs[0], oneof);
        let f = built_field(cat, scope, fbs[0], oneof)->Ok_0;
        lemma_put_field_linked(cat, done, f);
        assert forall|j: int| 0 <= j < fbs.skip(1).len() implies plain_type(
            (#[trigger] fbs.skip(1)[j]).field_type,
        ) by {
            assert(fbs.skip(1)[j] == fbs[j + 1]);
        }
        lemma_built_fields_linked(cat, scope, fbs.skip(1), oneof, put_field(done, f));
    }
}

/// Resolving the member fields of `oneof`s with fields of plain types and
/// putting them among linked fields leaves them linked.
pub proof fn lemma_member_fields_linked(
    cat: Seq<ItemNode>,
    scope: Seq<char>,
    m: MessageBuilder,
    from: int,
    done: Seq<MessageFieldView>,
)
    requires
        well_numbered(cat),
        cat.len() <= usize::MAX,
        plain_message(m),
        all_linked(cat, done),
        member_fields(cat, scope, m.oneofs@, from, done) is Ok,
    ensures
        all_linked(cat, member_fields(cat, scope, m.oneofs@, from, done)->Ok_0),
    decreases m.oneofs@.len() - from,
{
    if 0 <= from < m.oneofs@.len() {
        assert(plain_fields(m.oneofs@[from].fields@));
        lemma_built_fields_linked(
            cat,
            scope,
            m.oneofs@[from].fields@,
            Some(OneofRef::at(from)),
            done,
        );
        let next = built_fields(
            cat,
            scope,
            m.oneofs@[from].fields@,
            Some(OneofRef::at(from)),
            done,
        )->Ok_0;
        lemma_member_fields_linked(cat, scope, m, from + 1, next);
    }
}

/// The fields of a resolved message whose builder is plain refer to no
/// message or to one of the catalogue.
pub proof fn lemma_built_message_linked(cat: Seq<ItemNode>, node: ItemNode, m: MessageBuilder)
    requires
        well_numbered(cat),
        cat.len() <= usize::MAX,
        plain_message(m),
        built_message(cat, node, m) is Ok,
    ensures
        all_linked(cat, built_message(cat, node, m)->Ok_0.fields),
{
    lemma_built_fields_linked(cat, node.full_name, m.fields@, None, Seq::empty());
    let plain = built_fields(cat, node.full_name, m.fields@, None, Seq::empty())->Ok_0;
    lemma_member_fields_linked(cat, node.full_name, m, 0, plain);
}

/// The resolved types stand where the catalogue numbers them, each of the
/// kind of its entry, and their fields are linked.
pub proof fn lemma_built_types_linked(cat: Seq<ItemNode>, from: int, done: Seq<TypeInfoView>)
    requires
        well_numbered(cat),
        plain_catalogue(cat),
        cat.len() <= usize::MAX,
        0 <= from <= cat.len(),
        done.len() == count_types(cat.take(from)),
        kinds_match(cat, from, done),
        types_linked(cat, done),
        built_types(cat, from, done) is Ok,
    ensures
        kinds_match(cat, cat.len() as int, built_types(cat, from, done)->Ok_0),
        types_linked(cat, built_types(cat, from, done)->Ok_0),
    decreases cat.len() - from,
{
    if from < cat.len() {
        let node = cat[from];
        assert(node_numbered(cat, from));
        assert(cat.take(from + 1).drop_last() =~= cat.take(from));
        assert(cat.take(from + 1).last() == node);
        let next = match node.source {
            Source::Message(m) => {
                lemma_built_message_linked(cat, node, m);
                done.push(TypeInfoView::Message(built_message(cat, node, m)->Ok_0))
            },
            Source::Enum(e) => done.push(TypeInfoView::Enum(built_enum(node, e))),
            Source::Service(_) => done,
        };
        assert forall|i: int|
            0 <= i < from + 1 && (#[trigger] cat[i]).kind != ItemType::Service implies 0
            <= cat[i].index < next.len() && (next[cat[i].index] is Message <==> cat[i].kind
            == ItemType::Message) by {
            if i < from {
                assert(next[cat[i].index] == done[cat[i].index]);
            }
        }
        assert forall|k: int| 0 <= k < next.len() && (#[trigger] next[k]) is Message implies all_linked(
            cat,
            next[k]->Message_0.fields,
        ) by {
            if k < done.len() {
                assert(next[k] == done[k]);
            }
        }
        lemma_built_types_linked(cat, from + 1, next);
    } else {
        assert(cat.take(from) =~= cat);
    }
}

/// References resolve: resolving schema trees whose fields have plain types
/// yields a context in which every message that a field refers to is a
/// message of the context.
pub proof fn lemma_resolved_references(files: Seq<PackageBuilder>)
    requires
        plain_forest(files, 0),
        resolved(files) is Ok,
        catalogue(files)->Ok_0.len() <= usize::MAX,
    ensures
        resolved(files)->Ok_0.refs_resolved(),
{
    let cat = catalogue(files)->Ok_0;
    let empty = Seq::<ItemNode>::empty();
    lemma_forest_entries_numbered(empty, files, 0);
    assert(cat.take(0) =~= empty);
    lemma_built_types_linked(cat, 0, Seq::empty());
    let ctx = resolved(files)->Ok_0;
    let types = ctx.types;
    assert forall|k: int| 0 <= k < types.len() && (#[trigger] types[k]) is Message implies types[k]->Message_0.refs_resolved_in(
        ctx,
    ) by {
        let t = types[k]->Message_0;
        assert forall|j: int|
            0 <= j < t.fields.len() && (#[trigger] t.fields[j]).field_type is Message implies ctx.has_message(
            t.fields[j].field_type->Message_0,
        ) by {
            let target = t.fields[j].field_type->Message_0;
            let p = |n: ItemNode| n.kind == ItemType::Message && n.index == target.index();
            assert(linked(cat, t.fields[j].field_type));
            lemma_first_match(cat, p);
            let i = first_match(cat, p)->Some_0;
            assert(cat[i].kind != ItemType::Service);
        }
    }
}

} // verus!
