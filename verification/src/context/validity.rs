//! Resolution yields a well-formed context.
//!
//! Every package, type and service of a resolved context holds its own
//! position as its reference; no two packages have the same name and no two
//! types the same full name; the parent of every type is a package or a
//! message of the context, and the full name of the type is made from it.

use vstd::prelude::*;

use crate::context::{
    EnumFieldView, ItemType, MessageFieldView, MessageInfoView, MessageRef, OneofRef, PackageRef,
    ServiceRef, ServiceView, TypeInfoView, TypeParent,
};
use crate::context::builder::{
    FieldBuilder, InnerTypeBuilder, MessageBuilder, OneofBuilder, PackageBuilder,
    ProtobufItemBuilder, ProtobufTypeBuilder,
};
use crate::context::references::{
    lemma_count_bounds, lemma_enter_numbered, node_numbered, well_numbered,
};
use crate::context::resolve::{
    ItemNode, Source, built_enum, built_field, built_fields, built_message, built_service,
    built_services, built_types, catalogue, count_services, count_types, enter, enum_node,
    file_entries, forest_entries, inner_entries, is_name, item_entries, member_fields,
    message_entries, message_node, name_position, node_ref, oneof_numbers, ordered_enum_fields,
    package_for, package_names, put_enum_field, put_field, resolved, scoped_name, service_node,
};
use crate::search::{first_match, lemma_first_match, lemma_first_match_extended};
use crate::text::option_text;

verus! {

/// The name that the builder of a catalogued item gives it.
pub open spec fn own_name(node: ItemNode) -> Seq<char> {
    match node.source {
        Source::Message(m) => m.name@,
        Source::Enum(e) => e.name@,
        Source::Service(s) => s.name@,
    }
}

/// The position of the catalogued message with the given number.
pub open spec fn message_at(cat: Seq<ItemNode>, k: int) -> Option<int> {
    first_match(cat, |n: ItemNode| n.kind == ItemType::Message && n.index == k)
}

/// The position of the catalogued message or enum with the given number.
pub open spec fn type_at(cat: Seq<ItemNode>, k: int) -> Option<int> {
    first_match(cat, |n: ItemNode| n.kind != ItemType::Service && n.index == k)
}

/// The position of the catalogued service with the given number.
pub open spec fn service_at(cat: Seq<ItemNode>, k: int) -> Option<int> {
    first_match(cat, |n: ItemNode| n.kind == ItemType::Service && n.index == k)
}

/// No two entries of the catalogue have the same full name.
pub open spec fn names_distinct(cat: Seq<ItemNode>) -> bool {
    forall|i: int, j: int|
        0 <= i < j < cat.len() ==> (#[trigger] cat[i]).full_name != (#[trigger] cat[j]).full_name
}

/// The entry at position `j` stands under a package of the given names or
/// under a message that stands before it, and is named after it. A service
/// stands under a package and is numbered by its place among the services.
pub open spec fn node_placed(names: Seq<Option<Seq<char>>>, cat: Seq<ItemNode>, j: int) -> bool {
    let n = cat[j];
    &&& match n.parent {
        TypeParent::Package(p) => 0 <= p.index() < names.len() && n.full_name == scoped_name(
            names[p.index()],
            own_name(n),
        ),
        TypeParent::Message(m) => match message_at(cat, m.index()) {
            Some(i) => i < j && n.full_name == cat[i].full_name + seq!['.'] + own_name(n),
            None => false,
        },
    }
    &&& n.kind == ItemType::Service ==> n.parent is Package && n.index == count_services(
        cat.take(j),
    )
}

/// Every entry of the catalogue is well placed.
pub open spec fn well_placed(names: Seq<Option<Seq<char>>>, cat: Seq<ItemNode>) -> bool {
    forall|j: int| 0 <= j < cat.len() ==> node_placed(names, cat, j)
}

/// The catalogue `next` starts with the catalogue `cat`.
pub open spec fn extends(cat: Seq<ItemNode>, next: Seq<ItemNode>) -> bool {
    cat.len() <= next.len() && next.take(cat.len() as int) == cat
}

/// The place where an item is to be entered: a package of the given names,
/// with its name as the scope, or a catalogued message, with its full name
/// as the scope.
pub open spec fn place_ok(
    names: Seq<Option<Seq<char>>>,
    cat: Seq<ItemNode>,
    scope: Option<Seq<char>>,
    parent: TypeParent,
) -> bool {
    match parent {
        TypeParent::Package(p) => 0 <= p.index() < names.len() && scope == names[p.index()],
        TypeParent::Message(m) => match message_at(cat, m.index()) {
            Some(i) => scope == Some(cat[i].full_name),
            None => false,
        },
    }
}

/// The counts of the first entries of a catalogue do not exceed those of
/// more of its first entries.
pub proof fn lemma_count_monotonic(cat: Seq<ItemNode>, i: int, j: int)
    requires
        0 <= i <= j <= cat.len(),
    ensures
        count_types(cat.take(i)) <= count_types(cat.take(j)),
        count_services(cat.take(i)) <= count_services(cat.take(j)),
    decreases j - i,
{
    if i < j {
        lemma_count_monotonic(cat, i, j - 1);
        assert(cat.take(j).drop_last() =~= cat.take(j - 1));
    }
}

/// In a well-numbered catalogue the messages and enums before a position
/// have smaller numbers than the count of what stands before it.
pub proof fn lemma_numbers_below(cat: Seq<ItemNode>, i: int, j: int)
    requires
        well_numbered(cat),
        0 <= i < j <= cat.len(),
        cat[i].kind != ItemType::Service,
    ensures
        cat[i].index < count_types(cat.take(j)),
{
    assert(node_numbered(cat, i));
    lemma_count_monotonic(cat, i + 1, j);
    assert(cat.take(i + 1).drop_last() =~= cat.take(i));
    assert(cat.take(i + 1).last() == cat[i]);
}

/// In a catalogue whose services are well placed the services before a
/// position have smaller numbers than the count of what stands before it.
pub proof fn lemma_service_numbers_below(
    names: Seq<Option<Seq<char>>>,
    cat: Seq<ItemNode>,
    i: int,
    j: int,
)
    requires
        well_placed(names, cat),
        0 <= i < j <= cat.len(),
        cat[i].kind == ItemType::Service,
    ensures
        cat[i].index < count_services(cat.take(j)),
{
    assert(node_placed(names, cat, i));
    lemma_count_monotonic(cat, i + 1, j);
    assert(cat.take(i + 1).drop_last() =~= cat.take(i));
    assert(cat.take(i + 1).last() == cat[i]);
}

/// Entering an item at a good place keeps the catalogue well placed and
/// its names distinct.
pub proof fn lemma_enter_placed(
    names: Seq<Option<Seq<char>>>,
    cat: Seq<ItemNode>,
    node: ItemNode,
    scope: Option<Seq<char>>,
)
    requires
        well_placed(names, cat),
        names_distinct(cat),
        enter(cat, node) is Ok,
        place_ok(names, cat, scope, node.parent),
        node.full_name == scoped_name(scope, own_name(node)),
        node.kind == ItemType::Service ==> node.parent is Package && node.index
            == count_services(cat),
    ensures
        well_placed(names, enter(cat, node)->Ok_0),
        names_distinct(enter(cat, node)->Ok_0),
        extends(cat, enter(cat, node)->Ok_0),
{
    let next = cat.push(node);
    assert(next.take(cat.len() as int) =~= cat);
    lemma_first_match(cat, |n: ItemNode| n.full_name == node.full_name);
    assert forall|i: int, j: int| 0 <= i < j < next.len() implies (#[trigger] next[i]).full_name
        != (#[trigger] next[j]).full_name by {
        if j < cat.len() {
            assert(cat[i].full_name != cat[j].full_name);
        } else {
            assert(!(|n: ItemNode| n.full_name == node.full_name)(cat[i]));
        }
    }
    assert forall|j: int| 0 <= j < next.len() implies node_placed(names, next, j) by {
        let n = next[j];
        if j < cat.len() {
            assert(node_placed(names, cat, j));
            assert(next.take(j) =~= cat.take(j));
        } else {
            assert(next.take(j) =~= cat);
        }
        match n.parent {
            TypeParent::Package(p) => {},
            TypeParent::Message(m) => {
                let p = |x: ItemNode| x.kind == ItemType::Message && x.index == m.index();
                lemma_first_match_extended(cat, next, p);
                lemma_first_match(cat, p);
            },
        }
    }
}

/// Entering a message and the types inside it only adds entries.
pub proof fn lemma_message_entries_grow(
    cat: Seq<ItemNode>,
    m: MessageBuilder,
    scope: Option<Seq<char>>,
    parent: TypeParent,
)
    requires
        message_entries(cat, m, scope, parent) is Ok,
    ensures
        cat.len() < message_entries(cat, m, scope, parent)->Ok_0.len(),
    decreases m,
{
    let node = message_node(m, scope, parent, count_types(cat));
    lemma_inner_entries_grow(
        enter(cat, node)->Ok_0,
        m.inner_types@,
        scoped_name(scope, m.name@),
        MessageRef::at(count_types(cat)),
    );
}

/// Entering the types inside a message only adds entries.
pub proof fn lemma_inner_entries_grow(
    cat: Seq<ItemNode>,
    inners: Seq<InnerTypeBuilder>,
    scope: Seq<char>,
    parent: MessageRef,
)
    requires
        inner_entries(cat, inners, scope, parent) is Ok,
    ensures
        cat.len() <= inner_entries(cat, inners, scope, parent)->Ok_0.len(),
    decreases inners,
{
    if inners.len() > 0 {
        match inners[0] {
            InnerTypeBuilder::Message(m) => {
                lemma_message_entries_grow(cat, m, Some(scope), TypeParent::Message(parent));
                let next = message_entries(cat, m, Some(scope), TypeParent::Message(parent))->Ok_0;
                lemma_inner_entries_grow(next, inners.skip(1), scope, parent);
            },
            InnerTypeBuilder::Enum(e) => {
                let node = enum_node(e, Some(scope), TypeParent::Message(parent), count_types(cat));
                lemma_inner_entries_grow(enter(cat, node)->Ok_0, inners.skip(1), scope, parent);
            },
        }
    }
}

/// Entering the top-level items of a file only adds entries.
pub proof fn lemma_file_entries_grow(
    cat: Seq<ItemNode>,
    items: Seq<ProtobufItemBuilder>,
    scope: Option<Seq<char>>,
    package: PackageRef,
)
    requires
        file_entries(cat, items, scope, package) is Ok,
    ensures
        cat.len() <= file_entries(cat, items, scope, package)->Ok_0.len(),
    decreases items.len(),
{
    if items.len() > 0 {
        match items[0] {
            ProtobufItemBuilder::Type(ProtobufTypeBuilder::Message(m)) => {
                lemma_message_entries_grow(cat, m, scope, TypeParent::Package(package));
            },
            _ => {},
        }
        let next = item_entries(cat, items[0], scope, package)->Ok_0;
        lemma_file_entries_grow(next, items.skip(1), scope, package);
    }
}

/// Entering the files only adds entries.
pub proof fn lemma_forest_entries_grow(cat: Seq<ItemNode>, files: Seq<PackageBuilder>, from: int)
    requires
        forest_entries(cat, files, from) is Ok,
    ensures
        cat.len() <= forest_entries(cat, files, from)->Ok_0.len(),
    decreases files.len() - from,
{
    if 0 <= from < files.len() {
        let file = files[from];
        let name = option_text(file.name);
        let package = package_for(package_names(files.take(from)), name);
        lemma_file_entries_grow(cat, file.types@, name, package);
        let next = file_entries(cat, file.types@, name, package)->Ok_0;
        lemma_forest_entries_grow(next, files, from + 1);
    }
}

/// A catalogue that extends one that extends a third extends the third.
pub proof fn lemma_extends_transitive(a: Seq<ItemNode>, b: Seq<ItemNode>, c: Seq<ItemNode>)
    requires
        extends(a, b),
        extends(b, c),
    ensures
        extends(a, c),
{
    assert(c.take(a.len() as int) =~= b.take(a.len() as int));
}

/// A message that heads a scope still does so where the catalogue is
/// extended.
pub proof fn lemma_scope_extended(
    cat: Seq<ItemNode>,
    next: Seq<ItemNode>,
    scope: Seq<char>,
    parent: MessageRef,
)
    requires
        extends(cat, next),
        message_at(cat, parent.index()) is Some,
        cat[message_at(cat, parent.index())->Some_0].full_name == scope,
    ensures
        message_at(next, parent.index()) == message_at(cat, parent.index()),
        next[message_at(next, parent.index())->Some_0].full_name == scope,
{
    let p = |n: ItemNode| n.kind == ItemType::Message && n.index == parent.index();
    lemma_first_match_extended(cat, next, p);
    lemma_first_match(cat, p);
    let i = message_at(cat, parent.index())->Some_0;
    assert(next[i] == next.take(cat.len() as int)[i]);
}

/// Entering a message and the types inside it at a good place keeps the
/// catalogue well placed and its names distinct.
pub proof fn lemma_message_entries_placed(
    names: Seq<Option<Seq<char>>>,
    cat: Seq<ItemNode>,
    m: MessageBuilder,
    scope: Option<Seq<char>>,
    parent: TypeParent,
)
    requires
        well_numbered(cat),
        well_placed(names, cat),
        names_distinct(cat),
        place_ok(names, cat, scope, parent),
        message_entries(cat, m, scope, parent) is Ok,
        message_entries(cat, m, scope, parent)->Ok_0.len() <= usize::MAX,
    ensures
        well_numbered(message_entries(cat, m, scope, parent)->Ok_0),
        well_placed(names, message_entries(cat, m, scope, parent)->Ok_0),
        names_distinct(message_entries(cat, m, scope, parent)->Ok_0),
        extends(cat, message_entries(cat, m, scope, parent)->Ok_0),
    decreases m,
{
    let index = count_types(cat);
    let node = message_node(m, scope, parent, index);
    let next = enter(cat, node)->Ok_0;
    let full = scoped_name(scope, m.name@);
    let result = message_entries(cat, m, scope, parent)->Ok_0;
    lemma_enter_placed(names, cat, node, scope);
    lemma_enter_numbered(cat, node);
    lemma_inner_entries_grow(next, m.inner_types@, full, MessageRef::at(index));
    lemma_count_bounds(cat);
    // The message that was entered heads the scope of the types inside it.
    let here = cat.len() as int;
    let p = |n: ItemNode| n.kind == ItemType::Message && n.index == MessageRef::at(index).index();
    assert(next[here] == node);
    assert forall|i: int| 0 <= i < here implies !p(next[i]) by {
        if cat[i].kind != ItemType::Service {
            lemma_numbers_below(cat, i, here);
            assert(cat.take(here) =~= cat);
        }
    }
    crate::search::lemma_first_match_is(next, p, here);
    lemma_inner_entries_placed(names, next, m.inner_types@, full, MessageRef::at(index));
    lemma_extends_transitive(cat, next, result);
}

/// Entering the types inside a catalogued message keeps the catalogue well
/// placed and its names distinct.
pub proof fn lemma_inner_entries_placed(
    names: Seq<Option<Seq<char>>>,
    cat: Seq<ItemNode>,
    inners: Seq<InnerTypeBuilder>,
    scope: Seq<char>,
    parent: MessageRef,
)
    requires
        well_numbered(cat),
        well_placed(names, cat),
        names_distinct(cat),
        message_at(cat, parent.index()) is Some,
        cat[message_at(cat, parent.index())->Some_0].full_name == scope,
        inner_entries(cat, inners, scope, parent) is Ok,
        inner_entries(cat, inners, scope, parent)->Ok_0.len() <= usize::MAX,
    ensures
        well_numbered(inner_entries(cat, inners, scope, parent)->Ok_0),
        well_placed(names, inner_entries(cat, inners, scope, parent)->Ok_0),
        names_distinct(inner_entries(cat, inners, scope, parent)->Ok_0),
        extends(cat, inner_entries(cat, inners, scope, parent)->Ok_0),
    decreases inners,
{
    if inners.len() == 0 {
        assert(cat.take(cat.len() as int) =~= cat);
    } else {
        let result = inner_entries(cat, inners, scope, parent)->Ok_0;
        let next = match inners[0] {
            InnerTypeBuilder::Message(m) => {
                let next = message_entries(cat, m, Some(scope), TypeParent::Message(parent))->Ok_0;
                lemma_inner_entries_grow(next, inners.skip(1), scope, parent);
                lemma_message_entries_placed(
                    names,
                    cat,
                    m,
                    Some(scope),
                    TypeParent::Message(parent),
                );
                next
            },
            InnerTypeBuilder::Enum(e) => {
                let node = enum_node(e, Some(scope), TypeParent::Message(parent), count_types(cat));
                lemma_enter_placed(names, cat, node, Some(scope));
                lemma_enter_numbered(cat, node);
                enter(cat, node)->Ok_0
            },
        };
        lemma_scope_extended(cat, next, scope, parent);
        lemma_inner_entries_placed(names, next, inners.skip(1), scope, parent);
        lemma_extends_transitive(cat, next, result);
    }
}

/// Entering the top-level items of a file under its package keeps the
/// catalogue well placed and its names distinct.
pub proof fn lemma_file_entries_placed(
    names: Seq<Option<Seq<char>>>,
    cat: Seq<ItemNode>,
    items: Seq<ProtobufItemBuilder>,
    scope: Option<Seq<char>>,
    package: PackageRef,
)
    requires
        well_numbered(cat),
        well_placed(names, cat),
        names_distinct(cat),
        0 <= package.index() < names.len(),
        scope == names[package.index()],
        file_entries(cat, items, scope, package) is Ok,
        file_entries(cat, items, scope, package)->Ok_0.len() <= usize::MAX,
    ensures
        well_numbered(file_entries(cat, items, scope, package)->Ok_0),
        well_placed(names, file_entries(cat, items, scope, package)->Ok_0),
        names_distinct(file_entries(cat, items, scope, package)->Ok_0),
        extends(cat, file_entries(cat, items, scope, package)->Ok_0),
    decreases items.len(),
{
    if items.len() == 0 {
        assert(cat.take(cat.len() as int) =~= cat);
    } else {
        let result = file_entries(cat, items, scope, package)->Ok_0;
        let next = item_entries(cat, items[0], scope, package)->Ok_0;
        lemma_file_entries_grow(next, items.skip(1), scope, package);
        match items[0] {
            ProtobufItemBuilder::Type(ProtobufTypeBuilder::Message(m)) => {
                lemma_message_entries_placed(names, cat, m, scope, TypeParent::Package(package));
            },
            ProtobufItemBuilder::Type(ProtobufTypeBuilder::Enum(e)) => {
                let node = enum_node(e, scope, TypeParent::Package(package), count_types(cat));
                lemma_enter_placed(names, cat, node, scope);
                lemma_enter_numbered(cat, node);
            },
            ProtobufItemBuilder::Service(s) => {
                let node = service_node(s, scope, package, count_services(cat));
                lemma_enter_placed(names, cat, node, scope);
                lemma_enter_numbered(cat, node);
            },
        }
        lemma_file_entries_placed(names, next, items.skip(1), scope, package);
        lemma_extends_transitive(cat, next, result);
    }
}

/// The package names of the first files are the first of the package names
/// of all the files.
pub proof fn lemma_package_names_prefix(files: Seq<PackageBuilder>, k: int)
    requires
        0 <= k <= files.len(),
    ensures
        package_names(files.take(k)).len() <= package_names(files).len(),
        package_names(files).take(package_names(files.take(k)).len() as int) == package_names(
            files.take(k),
        ),
    decreases files.len() - k,
{
    let all = package_names(files);
    if k == files.len() {
        assert(files.take(k) =~= files);
        assert(all.take(all.len() as int) =~= all);
    } else {
        lemma_package_names_prefix(files, k + 1);
        let longer = package_names(files.take(k + 1));
        let shorter = package_names(files.take(k));
        assert(files.take(k + 1).drop_last() =~= files.take(k));
        assert(longer.take(shorter.len() as int) =~= shorter);
        assert(all.take(shorter.len() as int) =~= all.take(longer.len() as int).take(
            shorter.len() as int,
        ));
    }
}

/// The package of a file is one of the packages of the forest, and has the
/// name of the file.
pub proof fn lemma_package_for(files: Seq<PackageBuilder>, k: int)
    requires
        0 <= k < files.len(),
        package_names(files).len() <= usize::MAX,
    ensures
        ({
            let name = option_text(files[k].name);
            let package = package_for(package_names(files.take(k)), name);
            0 <= package.index() < package_names(files).len() && package_names(
                files,
            )[package.index()] == name
        }),
{
    let name = option_text(files[k].name);
    let before = package_names(files.take(k));
    let with = package_names(files.take(k + 1));
    let all = package_names(files);
    assert(files.take(k + 1).drop_last() =~= files.take(k));
    assert(files.take(k + 1).last() == files[k]);
    lemma_package_names_prefix(files, k + 1);
    lemma_first_match(before, is_name(name));
    let package = package_for(before, name);
    let i = match name_position(before, name) {
        Some(i) => i,
        None => before.len() as int,
    };
    assert(0 <= i < with.len());
    assert(with[i] == name);
    assert(all.take(with.len() as int)[i] == all[i]);
}

/// No two of the package names of a forest are the same.
pub proof fn lemma_package_names_distinct(files: Seq<PackageBuilder>)
    ensures
        forall|i: int, j: int|
            0 <= i < j < package_names(files).len() ==> package_names(files)[i]
                != package_names(files)[j],
    decreases files.len(),
{
    if files.len() > 0 {
        lemma_package_names_distinct(files.drop_last());
        let before = package_names(files.drop_last());
        let name = option_text(files.last().name);
        lemma_first_match(before, is_name(name));
    }
}

/// Entering the files keeps the catalogue well placed and its names
/// distinct.
pub proof fn lemma_forest_entries_placed(cat: Seq<ItemNode>, files: Seq<PackageBuilder>, from: int)
    requires
        0 <= from,
        well_numbered(cat),
        well_placed(package_names(files), cat),
        names_distinct(cat),
        package_names(files).len() <= usize::MAX,
        forest_entries(cat, files, from) is Ok,
        forest_entries(cat, files, from)->Ok_0.len() <= usize::MAX,
    ensures
        well_numbered(forest_entries(cat, files, from)->Ok_0),
        well_placed(package_names(files), forest_entries(cat, files, from)->Ok_0),
        names_distinct(forest_entries(cat, files, from)->Ok_0),
    decreases files.len() - from,
{
    if from < files.len() {
        let file = files[from];
        let name = option_text(file.name);
        let package = package_for(package_names(files.take(from)), name);
        let next = file_entries(cat, file.types@, name, package)->Ok_0;
        lemma_package_for(files, from);
        lemma_forest_entries_grow(next, files, from + 1);
        lemma_file_entries_placed(package_names(files), cat, file.types@, name, package);
        lemma_forest_entries_placed(next, files, from + 1);
    }
}

/// What [`type_at`] finds: the first message or enum with the number.
pub proof fn lemma_type_at(cat: Seq<ItemNode>, k: int)
    ensures
        match type_at(cat, k) {
            Some(p) => 0 <= p < cat.len() && cat[p].kind != ItemType::Service && cat[p].index == k,
            None => forall|i: int|
                0 <= i < cat.len() ==> !((#[trigger] cat[i]).kind != ItemType::Service
                    && cat[i].index == k),
        },
{
    lemma_first_match(cat, |n: ItemNode| n.kind != ItemType::Service && n.index == k);
}

/// What [`message_at`] finds: the first message with the number.
pub proof fn lemma_message_at(cat: Seq<ItemNode>, k: int)
    ensures
        match message_at(cat, k) {
            Some(p) => 0 <= p < cat.len() && cat[p].kind == ItemType::Message && cat[p].index == k,
            None => true,
        },
{
    lemma_first_match(cat, |n: ItemNode| n.kind == ItemType::Message && n.index == k);
}

/// What [`service_at`] finds: the first service with the number.
pub proof fn lemma_service_at(cat: Seq<ItemNode>, k: int)
    ensures
        match service_at(cat, k) {
            Some(p) => 0 <= p < cat.len() && cat[p].kind == ItemType::Service && cat[p].index == k,
            None => true,
        },
{
    lemma_first_match(cat, |n: ItemNode| n.kind == ItemType::Service && n.index == k);
}

/// A message or enum before which none has its number is found by its
/// number.
pub proof fn lemma_type_at_is(cat: Seq<ItemNode>, k: int, p: int)
    requires
        0 <= p < cat.len(),
        cat[p].kind != ItemType::Service,
        cat[p].index == k,
        forall|i: int|
            0 <= i < p ==> !((#[trigger] cat[i]).kind != ItemType::Service && cat[i].index == k),
    ensures
        type_at(cat, k) == Some(p),
{
    crate::search::lemma_first_match_is(
        cat,
        |n: ItemNode| n.kind != ItemType::Service && n.index == k,
        p,
    );
}

/// A service before which none has its number is found by its number.
pub proof fn lemma_service_at_is(cat: Seq<ItemNode>, k: int, p: int)
    requires
        0 <= p < cat.len(),
        cat[p].kind == ItemType::Service,
        cat[p].index == k,
        forall|i: int|
            0 <= i < p ==> !((#[trigger] cat[i]).kind == ItemType::Service && cat[i].index == k),
    ensures
        service_at(cat, k) == Some(p),
{
    crate::search::lemma_first_match_is(
        cat,
        |n: ItemNode| n.kind == ItemType::Service && n.index == k,
        p,
    );
}

/// The resolved type is that of the catalogue entry: of its kind, with its
/// names, its parent and its number.
pub open spec fn made_from(node: ItemNode, t: TypeInfoView) -> bool {
    &&& t is Message <==> node.kind == ItemType::Message
    &&& t.name() == own_name(node)
    &&& t.full_name() == node.full_name
    &&& t.parent() == node.parent
    &&& t.self_ref() == node_ref(node)
}

/// Each of the resolved types is that of the catalogue entry with its
/// position as its number, which stands among the first `upto` entries.
pub open spec fn types_from(cat: Seq<ItemNode>, upto: int, types: Seq<TypeInfoView>) -> bool {
    forall|k: int|
        0 <= k < types.len() ==> type_from(cat, upto, k, #[trigger] types[k])
}

/// The resolved type is that of the catalogue entry with the number `k`,
/// which stands among the first `upto` entries.
pub open spec fn type_from(cat: Seq<ItemNode>, upto: int, k: int, t: TypeInfoView) -> bool {
    match type_at(cat, k) {
        Some(p) => p < upto && made_from(cat[p], t),
        None => false,
    }
}

/// Each of the resolved services is that of the catalogue entry with its
/// position as its number, which stands among the first `upto` entries.
pub open spec fn services_from(cat: Seq<ItemNode>, upto: int, services: Seq<ServiceView>) -> bool {
    forall|k: int|
        0 <= k < services.len() ==> service_from(cat, upto, k, #[trigger] services[k])
}

/// The resolved service is that of the catalogue entry with the number `k`,
/// which stands among the first `upto` entries.
pub open spec fn service_from(cat: Seq<ItemNode>, upto: int, k: int, s: ServiceView) -> bool {
    match service_at(cat, k) {
        Some(p) => p < upto && s.self_ref == ServiceRef::at(k),
        None => false,
    }
}

/// The resolved types are those of the catalogue entries, in order.
pub proof fn lemma_built_types_from(cat: Seq<ItemNode>, from: int, done: Seq<TypeInfoView>)
    requires
        well_numbered(cat),
        cat.len() <= usize::MAX,
        0 <= from <= cat.len(),
        done.len() == count_types(cat.take(from)),
        types_from(cat, from, done),
        built_types(cat, from, done) is Ok,
    ensures
        types_from(cat, cat.len() as int, built_types(cat, from, done)->Ok_0),
        built_types(cat, from, done)->Ok_0.len() == count_types(cat),
    decreases cat.len() - from,
{
    if from < cat.len() {
        let node = cat[from];
        assert(node_numbered(cat, from));
        assert(cat.take(from + 1).drop_last() =~= cat.take(from));
        assert(cat.take(from + 1).last() == node);
        let next = match node.source {
            Source::Message(m) => done.push(
                TypeInfoView::Message(built_message(cat, node, m)->Ok_0),
            ),
            Source::Enum(e) => done.push(TypeInfoView::Enum(built_enum(node, e))),
            Source::Service(_) => done,
        };
        if node.kind != ItemType::Service {
            assert forall|i: int| 0 <= i < from implies !((#[trigger] cat[i]).kind
                != ItemType::Service && cat[i].index == node.index) by {
                if cat[i].kind != ItemType::Service {
                    lemma_numbers_below(cat, i, from);
                }
            }
            lemma_type_at_is(cat, node.index, from);
            lemma_count_bounds(cat.take(from));
        }
        assert forall|k: int| 0 <= k < next.len() implies type_from(
            cat,
            from + 1,
            k,
            #[trigger] next[k],
        ) by {
            if k < done.len() {
                assert(next[k] == done[k]);
                assert(type_from(cat, from, k, done[k]));
            }
        }
        lemma_built_types_from(cat, from + 1, next);
    } else {
        assert(cat.take(from) =~= cat);
    }
}

/// The resolved services are those of the catalogue entries, in order.
pub proof fn lemma_built_services_from(
    names: Seq<Option<Seq<char>>>,
    cat: Seq<ItemNode>,
    from: int,
    done: Seq<ServiceView>,
)
    requires
        well_numbered(cat),
        well_placed(names, cat),
        cat.len() <= usize::MAX,
        0 <= from <= cat.len(),
        done.len() == count_services(cat.take(from)),
        services_from(cat, from, done),
        built_services(cat, from, done) is Ok,
    ensures
        services_from(cat, cat.len() as int, built_services(cat, from, done)->Ok_0),
    decreases cat.len() - from,
{
    if from < cat.len() {
        let node = cat[from];
        assert(node_numbered(cat, from));
        assert(node_placed(names, cat, from));
        assert(cat.take(from + 1).drop_last() =~= cat.take(from));
        assert(cat.take(from + 1).last() == node);
        let next = match node.source {
            Source::Service(s) => done.push(built_service(cat, node, s)->Ok_0),
            _ => done,
        };
        if node.kind == ItemType::Service {
            assert forall|i: int| 0 <= i < from implies !((#[trigger] cat[i]).kind
                == ItemType::Service && cat[i].index == node.index) by {
                if cat[i].kind == ItemType::Service {
                    lemma_service_numbers_below(names, cat, i, from);
                }
            }
            lemma_service_at_is(cat, node.index, from);
            lemma_count_bounds(cat.take(from));
        }
        assert forall|k: int| 0 <= k < next.len() implies service_from(
            cat,
            from + 1,
            k,
            #[trigger] next[k],
        ) by {
            if k < done.len() {
                assert(next[k] == done[k]);
                assert(service_from(cat, from, k, done[k]));
            }
        }
        lemma_built_services_from(names, cat, from + 1, next);
    } else {
        assert(cat.take(from) =~= cat);
    }
}

/// Resolution yields a well-formed context: whatever the schema files hold,
/// a context that resolution yields satisfies the invariant of a context.
pub proof fn lemma_resolved_well_formed(files: Seq<PackageBuilder>)
    requires
        resolved(files) is Ok,
        catalogue(files)->Ok_0.len() <= usize::MAX,
        package_names(files).len() <= usize::MAX,
    ensures
        resolved(files)->Ok_0.wf(),
{
    let cat = catalogue(files)->Ok_0;
    let names = package_names(files);
    let ctx = resolved(files)->Ok_0;
    let empty = Seq::<ItemNode>::empty();
    lemma_forest_entries_placed(empty, files, 0);
    assert(cat.take(0) =~= empty);
    lemma_built_types_from(cat, 0, Seq::empty());
    lemma_built_services_from(names, cat, 0, Seq::empty());
    lemma_package_names_distinct(files);
    let types = ctx.types;
    assert(cat.take(cat.len() as int) =~= cat);
    assert forall|i: int| 0 <= i < types.len() implies (#[trigger] types[i]).self_ref().index()
        == i && ctx.has_parent(types[i].parent()) && types[i].full_name() == ctx.child_full_name(
        types[i].parent(),
        types[i].name(),
    ) by {
        lemma_type_at(cat, i);
        assert(type_from(cat, cat.len() as int, i, types[i]));
        let p = type_at(cat, i)->Some_0;
        let node = cat[p];
        assert(made_from(node, types[i]));
        assert(node_placed(names, cat, p));
        assert(node_numbered(cat, p));
        lemma_count_bounds(cat.take(p));
        assert(types[i].self_ref().index() == i);
        match node.parent {
            TypeParent::Package(q) => {
                assert(ctx.packages[q.index()].name == names[q.index()]);
                assert(ctx.has_parent(types[i].parent()));
            },
            TypeParent::Message(m) => {
                lemma_message_at(cat, m.index());
                let holder = message_at(cat, m.index())->Some_0;
                lemma_numbers_below(cat, holder, cat.len() as int);
                lemma_type_at(cat, m.index());
                let first = type_at(cat, m.index())->Some_0;
                if first < holder {
                    lemma_numbers_below(cat, first, holder);
                    assert(node_numbered(cat, holder));
                }
                crate::search::lemma_first_match(
                    cat,
                    |n: ItemNode| n.kind != ItemType::Service && n.index == m.index(),
                );
                assert(first == holder);
                assert(0 <= m.index() < types.len());
                assert(type_from(cat, cat.len() as int, m.index(), types[m.index()]));
                assert(ctx.has_message(m));
                assert(types[m.index()].full_name() == cat[holder].full_name);
            },
        }
    }
    assert forall|i: int| 0 <= i < ctx.services.len() implies (
    #[trigger] ctx.services[i]).self_ref.index() == i by {
        assert(service_from(cat, cat.len() as int, i, ctx.services[i]));
        lemma_service_at(cat, i);
        let p = service_at(cat, i)->Some_0;
        assert(node_placed(names, cat, p));
        lemma_count_bounds(cat.take(p));
    }
    assert forall|i: int, j: int| 0 <= i < j < types.len() implies (
    #[trigger] types[i]).full_name() != (#[trigger] types[j]).full_name() by {
        lemma_type_at(cat, i);
        lemma_type_at(cat, j);
        assert(type_from(cat, cat.len() as int, i, types[i]));
        assert(type_from(cat, cat.len() as int, j, types[j]));
        let p = type_at(cat, i)->Some_0;
        let q = type_at(cat, j)->Some_0;
        if p < q {
            assert(cat[p].full_name != cat[q].full_name);
        } else {
            assert(cat[q].full_name != cat[p].full_name);
        }
    }
}

/// Putting a field among fields in ascending order of their numbers keeps
/// them in ascending order.
pub proof fn lemma_put_field_ascending(fields: Seq<MessageFieldView>, f: MessageFieldView)
    requires
        forall|i: int, j: int| 0 <= i < j < fields.len() ==> fields[i].number < fields[j].number,
    ensures
        forall|i: int, j: int|
            0 <= i < j < put_field(fields, f).len() ==> put_field(fields, f)[i].number < put_field(
                fields,
                f,
            )[j].number,
{
    let p = |g: MessageFieldView| g.number >= f.number;
    lemma_first_match(fields, p);
    let after = put_field(fields, f);
    assert forall|i: int, j: int| 0 <= i < j < after.len() implies after[i].number
        < after[j].number by {
        match first_match(fields, p) {
            Some(k) => {
                if fields[k].number == f.number {
                    assert(after[i].number == fields[i].number);
                    assert(after[j].number == fields[j].number);
                } else {
                    if j < k {
                    } else if j == k {
                        assert(!p(fields[i]));
                    } else if i < k {
                        assert(after[j] == fields[j - 1]);
                    } else if i == k {
                        assert(after[j] == fields[j - 1]);
                        if j - 1 > k {
                            assert(fields[k].number < fields[j - 1].number);
                        }
                    } else {
                        assert(after[i] == fields[i - 1]);
                        assert(after[j] == fields[j - 1]);
                    }
                }
            },
            None => {
                if j == fields.len() {
                    assert(!p(fields[i]));
                }
            },
        }
    }
}

/// Resolving fields and putting them among fields in ascending order keeps
/// them in ascending order.
pub proof fn lemma_built_fields_ascending(
    cat: Seq<ItemNode>,
    scope: Seq<char>,
    fbs: Seq<FieldBuilder>,
    oneof: Option<OneofRef>,
    done: Seq<MessageFieldView>,
)
    requires
        forall|i: int, j: int| 0 <= i < j < done.len() ==> done[i].number < done[j].number,
        built_fields(cat, scope, fbs, oneof, done) is Ok,
    ensures
        ({
            let after = built_fields(cat, scope, fbs, oneof, done)->Ok_0;
            forall|i: int, j: int| 0 <= i < j < after.len() ==> after[i].number < after[j].number
        }),
    decreases fbs.len(),
{
    if fbs.len() > 0 {
        let f = built_field(cat, scope, fbs[0], oneof)->Ok_0;
        lemma_put_field_ascending(done, f);
        lemma_built_fields_ascending(cat, scope, fbs.skip(1), oneof, put_field(done, f));
    }
}

/// Resolving the member fields of `oneof`s and putting them among fields in
/// ascending order keeps them in ascending order.
pub proof fn lemma_member_fields_ascending(
    cat: Seq<ItemNode>,
    scope: Seq<char>,
    oneofs: Seq<OneofBuilder>,
    from: int,
    done: Seq<MessageFieldView>,
)
    requires
        forall|i: int, j: int| 0 <= i < j < done.len() ==> done[i].number < done[j].number,
        member_fields(cat, scope, oneofs, from, done) is Ok,
    ensures
        ({
            let after = member_fields(cat, scope, oneofs, from, done)->Ok_0;
            forall|i: int, j: int| 0 <= i < j < after.len() ==> after[i].number < after[j].number
        }),
    decreases oneofs.len() - from,
{
    if 0 <= from < oneofs.len() {
        lemma_built_fields_ascending(
            cat,
            scope,
            oneofs[from].fields@,
            Some(OneofRef::at(from)),
            done,
        );
        let next = built_fields(cat, scope, oneofs[from].fields@, Some(OneofRef::at(from)), done)->Ok_0;
        lemma_member_fields_ascending(cat, scope, oneofs, from + 1, next);
    }
}

/// Putting a field among enum fields in ascending order of their values
/// keeps them in ascending order.
pub proof fn lemma_put_enum_field_ascending(fields: Seq<EnumFieldView>, f: EnumFieldView)
    requires
        forall|i: int, j: int| 0 <= i < j < fields.len() ==> fields[i].value < fields[j].value,
    ensures
        forall|i: int, j: int|
            0 <= i < j < put_enum_field(fields, f).len() ==> put_enum_field(fields, f)[i].value
                < put_enum_field(fields, f)[j].value,
{
    let p = |g: EnumFieldView| g.value >= f.value;
    lemma_first_match(fields, p);
    let after = put_enum_field(fields, f);
    assert forall|i: int, j: int| 0 <= i < j < after.len() implies after[i].value
        < after[j].value by {
        match first_match(fields, p) {
            Some(k) => {
                if fields[k].value == f.value {
                    assert(after[i].value == fields[i].value);
                    assert(after[j].value == fields[j].value);
                } else {
                    if j < k {
                    } else if j == k {
                        assert(!p(fields[i]));
                    } else if i < k {
                        assert(after[j] == fields[j - 1]);
                    } else if i == k {
                        assert(after[j] == fields[j - 1]);
                        if j - 1 > k {
                            assert(fields[k].value < fields[j - 1].value);
                        }
                    } else {
                        assert(after[i] == fields[i - 1]);
                        assert(after[j] == fields[j - 1]);
                    }
                }
            },
            None => {
                if j == fields.len() {
                    assert(!p(fields[i]));
                }
            },
        }
    }
}

/// Enum fields put in order one by one stand in ascending order of their
/// values.
pub proof fn lemma_ordered_enum_fields(fields: Seq<EnumFieldView>)
    ensures
        ({
            let after = ordered_enum_fields(fields);
            forall|i: int, j: int| 0 <= i < j < after.len() ==> after[i].value < after[j].value
        }),
    decreases fields.len(),
{
    if fields.len() > 0 {
        lemma_ordered_enum_fields(fields.drop_last());
        lemma_put_enum_field_ascending(ordered_enum_fields(fields.drop_last()), fields.last());
    }
}

/// The fields of every resolved type stand in ascending order.
pub proof fn lemma_built_types_ascending(cat: Seq<ItemNode>, from: int, done: Seq<TypeInfoView>)
    requires
        0 <= from <= cat.len(),
        forall|k: int| 0 <= k < done.len() ==> (#[trigger] done[k]).fields_ascending(),
        built_types(cat, from, done) is Ok,
    ensures
        forall|k: int|
            0 <= k < built_types(cat, from, done)->Ok_0.len() ==> (#[trigger] built_types(
                cat,
                from,
                done,
            )->Ok_0[k]).fields_ascending(),
    decreases cat.len() - from,
{
    if from < cat.len() {
        let node = cat[from];
        let next = match node.source {
            Source::Message(m) => {
                lemma_built_fields_ascending(cat, node.full_name, m.fields@, None, Seq::empty());
                let plain = built_fields(cat, node.full_name, m.fields@, None, Seq::empty())->Ok_0;
                lemma_member_fields_ascending(cat, node.full_name, m.oneofs@, 0, plain);
                done.push(TypeInfoView::Message(built_message(cat, node, m)->Ok_0))
            },
            Source::Enum(e) => {
                lemma_ordered_enum_fields(crate::context::views(e.fields@));
                done.push(TypeInfoView::Enum(built_enum(node, e)))
            },
            Source::Service(_) => done,
        };
        assert forall|k: int| 0 <= k < next.len() implies (#[trigger] next[k]).fields_ascending() by {
            if k < done.len() {
                assert(next[k] == done[k]);
            }
        }
        lemma_built_types_ascending(cat, from + 1, next);
    }
}

/// Field ordering: in a context that resolution yields, the fields of every
/// message stand in ascending order of their numbers, whatever the order of
/// their declaration, and those of every enum in ascending order of their
/// values.
pub proof fn lemma_resolved_fields_ascending(files: Seq<PackageBuilder>)
    requires
        resolved(files) is Ok,
    ensures
        resolved(files)->Ok_0.fields_ascending(),
{
    lemma_built_types_ascending(catalogue(files)->Ok_0, 0, Seq::empty());
}

/// Every field that is in a `oneof` names one of the first `limit`.
pub open spec fn oneofs_known(fields: Seq<MessageFieldView>, limit: int) -> bool {
    forall|i: int|
        0 <= i < fields.len() && (#[trigger] fields[i]).oneof is Some ==> 0
            <= fields[i].oneof.unwrap().index() < limit
}

/// Putting a field that names a known `oneof`, or none, among such fields
/// leaves such fields.
pub proof fn lemma_put_field_known(fields: Seq<MessageFieldView>, f: MessageFieldView, limit: int)
    requires
        oneofs_known(fields, limit),
        f.oneof is Some ==> 0 <= f.oneof.unwrap().index() < limit,
    ensures
        oneofs_known(put_field(fields, f), limit),
{
    let p = |g: MessageFieldView| g.number >= f.number;
    lemma_first_match(fields, p);
    let after = put_field(fields, f);
    assert forall|j: int| 0 <= j < after.len() && (#[trigger] after[j]).oneof is Some implies 0
        <= after[j].oneof.unwrap().index() < limit by {
        match first_match(fields, p) {
            Some(i) => {
                if fields[i].number == f.number {
                    if j != i {
                        assert(after[j] == fields[j]);
                    }
                } else {
                    if j < i {
                        assert(after[j] == fields[j]);
                    } else if j > i {
                        assert(after[j] == fields[j - 1]);
                    }
                }
            },
            None => {
                if j < fields.len() {
                    assert(after[j] == fields[j]);
                }
            },
        }
    }
}

/// Resolving fields that name a known `oneof`, or none, and putting them
/// among such fields leaves such fields.
pub proof fn lemma_built_fields_known(
    cat: Seq<ItemNode>,
    scope: Seq<char>,
    fbs: Seq<FieldBuilder>,
    oneof: Option<OneofRef>,
    done: Seq<MessageFieldView>,
    limit: int,
)
    requires
        oneofs_known(done, limit),
        oneof is Some ==> 0 <= oneof.unwrap().index() < limit,
        built_fields(cat, scope, fbs, oneof, done) is Ok,
    ensures
        oneofs_known(built_fields(cat, scope, fbs, oneof, done)->Ok_0, limit),
    decreases fbs.len(),
{
    if fbs.len() > 0 {
        let f = built_field(cat, scope, fbs[0], oneof)->Ok_0;
        lemma_put_field_known(done, f, limit);
        lemma_built_fields_known(cat, scope, fbs.skip(1), oneof, put_field(done, f), limit);
    }
}

/// Resolving the member fields of the `oneof`s of a message and putting them
/// among fields that name a `oneof` of the message, or none, leaves such
/// fields.
pub proof fn lemma_member_fields_known(
    cat: Seq<ItemNode>,
    scope: Seq<char>,
    m: MessageBuilder,
    from: int,
    done: Seq<MessageFieldView>,
)
    requires
        0 <= from,
        oneofs_known(done, m.oneofs@.len() as int),
        member_fields(cat, scope, m.oneofs@, from, done) is Ok,
    ensures
        oneofs_known(
            member_fields(cat, scope, m.oneofs@, from, done)->Ok_0,
            m.oneofs@.len() as int,
        ),
    decreases m.oneofs@.len() - from,
{
    if from < m.oneofs@.len() {
        assert(m.oneofs.len() <= usize::MAX);
        lemma_built_fields_known(
            cat,
            scope,
            m.oneofs@[from].fields@,
            Some(OneofRef::at(from)),
            done,
            m.oneofs@.len() as int,
        );
        let next = built_fields(cat, scope, m.oneofs@[from].fields@, Some(OneofRef::at(from)), done)->Ok_0;
        lemma_member_fields_known(cat, scope, m, from + 1, next);
    }
}

/// The numbers that a `oneof` is given are numbers of the fields they were
/// taken from.
pub proof fn lemma_oneof_numbers_exist(m: MessageInfoView, upto: int, r: OneofRef, x: int)
    requires
        0 <= upto <= m.fields.len(),
        0 <= x < oneof_numbers(m.fields.take(upto), r).len(),
    ensures
        m.field_index(oneof_numbers(m.fields.take(upto), r)[x]) is Some,
    decreases upto,
{
    let part = m.fields.take(upto);
    let before = oneof_numbers(part.drop_last(), r);
    assert(part.drop_last() =~= m.fields.take(upto - 1));
    if x < before.len() {
        lemma_oneof_numbers_exist(m, upto - 1, r, x);
    } else {
        let n = part.last().number;
        let by_number = |g: MessageFieldView| g.number == n;
        lemma_first_match(m.fields, by_number);
        assert(by_number(m.fields[upto - 1]));
    }
}

/// The `oneof`s of a resolved message are linked with its fields.
pub proof fn lemma_built_message_oneofs(cat: Seq<ItemNode>, node: ItemNode, m: MessageBuilder)
    requires
        built_message(cat, node, m) is Ok,
    ensures
        built_message(cat, node, m)->Ok_0.oneofs_linked(),
{
    let built = built_message(cat, node, m)->Ok_0;
    let limit = m.oneofs@.len() as int;
    assert(m.oneofs.len() <= usize::MAX);
    lemma_built_fields_known(cat, node.full_name, m.fields@, None, Seq::empty(), limit);
    let plain = built_fields(cat, node.full_name, m.fields@, None, Seq::empty())->Ok_0;
    lemma_member_fields_known(cat, node.full_name, m, 0, plain);
    assert forall|k: int, x: int|
        0 <= k < built.oneofs.len() && 0 <= x < built.oneofs[k].fields.len() implies built.field_index(
        #[trigger] built.oneofs[k].fields[x],
    ) is Some by {
        assert(built.fields.take(built.fields.len() as int) =~= built.fields);
        lemma_oneof_numbers_exist(built, built.fields.len() as int, OneofRef::at(k), x);
    }
}

/// The `oneof`s of every resolved message are linked with its fields.
pub proof fn lemma_built_types_oneofs(cat: Seq<ItemNode>, from: int, done: Seq<TypeInfoView>)
    requires
        0 <= from <= cat.len(),
        forall|k: int|
            0 <= k < done.len() && (#[trigger] done[k]) is Message
                ==> done[k]->Message_0.oneofs_linked(),
        built_types(cat, from, done) is Ok,
    ensures
        forall|k: int|
            0 <= k < built_types(cat, from, done)->Ok_0.len() && (#[trigger] built_types(
                cat,
                from,
                done,
            )->Ok_0[k]) is Message ==> built_types(cat, from, done)->Ok_0[k]->Message_0.oneofs_linked(),
    decreases cat.len() - from,
{
    if from < cat.len() {
        let node = cat[from];
        let next = match node.source {
            Source::Message(m) => {
                lemma_built_message_oneofs(cat, node, m);
                done.push(TypeInfoView::Message(built_message(cat, node, m)->Ok_0))
            },
            Source::Enum(e) => done.push(TypeInfoView::Enum(built_enum(node, e))),
            Source::Service(_) => done,
        };
        assert forall|k: int| 0 <= k < next.len() && (#[trigger] next[k]) is Message implies next[k]->Message_0.oneofs_linked() by {
            if k < done.len() {
                assert(next[k] == done[k]);
            }
        }
        lemma_built_types_oneofs(cat, from + 1, next);
    }
}

/// Oneof linkage: in a context that resolution yields, each `oneof` of a
/// message holds its own position as its reference, each field in a `oneof`
/// names one that its message has, and each `oneof` lists only numbers of
/// fields that its message has.
pub proof fn lemma_resolved_oneofs_linked(files: Seq<PackageBuilder>)
    requires
        resolved(files) is Ok,
    ensures
        resolved(files)->Ok_0.oneofs_linked(),
{
    lemma_built_types_oneofs(catalogue(files)->Ok_0, 0, Seq::empty());
}

} // verus!
