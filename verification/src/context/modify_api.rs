//! Building a context by hand: inserting packages and types, and adding
//! fields and `oneof`s to a type.
//!
//! Each operation checks everything before it changes anything, so that a
//! refused operation leaves its target as it was.

use std::collections::BTreeMap;

use vstd::prelude::*;

use crate::context::resolve::{put_enum_field, put_field};
use crate::context::table::{
    field_in, fields_in_order, lemma_fields_ascending, lemma_no_fields, lemma_no_values, put_in,
    put_value_in, values_of,
};
use crate::context::{
    Context, ContextView, EnumField, EnumFieldView, EnumInfo, EnumInfoView, EnumRef, InsertError,
    InternalRef, MemberInsertError, MessageField, MessageFieldView, MessageInfo, MessageInfoView,
    MessageRef, Multiplicity, Oneof, OneofInsertError, OneofRef, OneofView, Package, PackageRef,
    PackageView, TypeInfo, TypeInfoView, TypeParent, TypeRef, ValueType, copy_options,
};
use crate::search::{first_match, lemma_first_match, lemma_first_match_is, lemma_first_match_none};
use crate::text::{dotted, option_text, same_name, same_text};

verus! {

impl MessageInfoView {
    /// The position of the `oneof` with the given name.
    pub open spec fn oneof_index(self, name: Seq<char>) -> Option<int> {
        first_match(self.oneofs, |x: OneofView| x.name == name)
    }

    /// The position in `numbers` of the first number that no field has.
    pub open spec fn first_missing(self, numbers: Seq<u64>) -> Option<int> {
        first_match(numbers, |n: u64| self.field_index(n) is None)
    }

    /// The place of a new field with the given number: before the first
    /// field with a greater number, or at the end.
    pub open spec fn insert_position(self, number: u64) -> int {
        match first_match(self.fields, |f: MessageFieldView| f.number > number) {
            Some(i) => i,
            None => self.fields.len() as int,
        }
    }

    /// What adding a field does to a message.
    ///
    /// The field is refused if its number is taken, else if its name is
    /// taken, else if it names a `oneof` that the message does not have.
    /// Otherwise it is put in its place by number, and the `oneof` it names
    /// lists its number last.
    pub open spec fn add_field(self, f: MessageFieldView) -> Result<
        MessageInfoView,
        MemberInsertError,
    > {
        if self.field_index(f.number) is Some {
            Err(MemberInsertError::NumberConflict)
        } else if self.field_by_name(f.name) is Some {
            Err(MemberInsertError::NameConflict)
        } else if f.oneof is Some && !(0 <= f.oneof.unwrap().index() < self.oneofs.len()) {
            Err(MemberInsertError::MissingOneof)
        } else {
            Ok(
                MessageInfoView {
                    fields: self.fields.insert(self.insert_position(f.number), f),
                    oneofs: match f.oneof {
                        Some(o) => self.oneofs.update(
                            o.index(),
                            OneofView {
                                fields: self.oneofs[o.index()].fields.push(f.number),
                                ..self.oneofs[o.index()]
                            },
                        ),
                        None => self.oneofs,
                    },
                    ..self
                },
            )
        }
    }

    /// What adding a `oneof` does to a message.
    ///
    /// The `oneof` is refused if its name is taken, else if it lists a number
    /// that no field has; the error names the first such number. Otherwise it
    /// is put last, holding its position as its reference, and every field
    /// whose number it lists holds that reference as its `oneof`.
    pub open spec fn add_oneof(self, o: OneofView) -> Result<
        (MessageInfoView, OneofRef),
        OneofInsertError,
    > {
        let r = OneofRef::at(self.oneofs.len() as int);
        if self.oneof_index(o.name) is Some {
            Err(OneofInsertError::NameConflict)
        } else {
            match self.first_missing(o.fields) {
                Some(i) => Err(OneofInsertError::FieldNotFound { field: o.fields[i] }),
                None => Ok(
                    (
                        MessageInfoView {
                            fields: self.fields.map_values(
                                |f: MessageFieldView|
                                    if o.fields.contains(f.number) {
                                        MessageFieldView { oneof: Some(r), ..f }
                                    } else {
                                        f
                                    },
                            ),
                            oneofs: self.oneofs.push(OneofView { self_ref: r, ..o }),
                            ..self
                        },
                        r,
                    ),
                ),
            }
        }
    }
}

impl EnumInfoView {
    /// The position of the field with the given name.
    pub open spec fn name_index(self, name: Seq<char>) -> Option<int> {
        first_match(self.fields, |g: EnumFieldView| g.name == name)
    }

    /// The place of a new field with the given value: before the first field
    /// with a greater value, or at the end.
    pub open spec fn insert_position(self, value: i64) -> int {
        match first_match(self.fields, |f: EnumFieldView| f.value > value) {
            Some(i) => i,
            None => self.fields.len() as int,
        }
    }

    /// What adding a field does to an enum. The field is refused if its value
    /// is taken, else if its name is taken. Otherwise it is put in its place
    /// by value.
    pub open spec fn add_field(self, f: EnumFieldView) -> Result<EnumInfoView, MemberInsertError> {
        if self.field_by_value(f.value) is Some {
            Err(MemberInsertError::NumberConflict)
        } else if self.name_index(f.name) is Some {
            Err(MemberInsertError::NameConflict)
        } else {
            Ok(EnumInfoView { fields: self.fields.insert(self.insert_position(f.value), f), ..self })
        }
    }
}

impl TypeInfoView {
    /// The type with the given full name and at the given position of the
    /// arena.
    pub open spec fn placed(self, full_name: Seq<char>, index: int) -> TypeInfoView {
        match self {
            TypeInfoView::Message(m) => TypeInfoView::Message(
                MessageInfoView { full_name, self_ref: MessageRef::at(index), ..m },
            ),
            TypeInfoView::Enum(e) => TypeInfoView::Enum(
                EnumInfoView { full_name, self_ref: EnumRef::at(index), ..e },
            ),
        }
    }

    /// The type with one more inner type. An enum has none.
    pub open spec fn with_inner(self, inner: TypeRef) -> TypeInfoView {
        match self {
            TypeInfoView::Message(m) => TypeInfoView::Message(
                MessageInfoView { inner_types: m.inner_types.push(inner), ..m },
            ),
            TypeInfoView::Enum(e) => self,
        }
    }
}

impl ContextView {
    /// The position of the package with the given name.
    pub open spec fn package_index(self, name: Option<Seq<char>>) -> Option<int> {
        first_match(self.packages, |p: PackageView| p.name == name)
    }

    /// What inserting a package does to a context: it is refused, with the
    /// reference of the package that is there, if one has the same name;
    /// otherwise it is put last, holding its position as its reference.
    pub open spec fn insert_package(self, pkg: PackageView) -> Result<
        (ContextView, PackageRef),
        PackageRef,
    > {
        match self.package_index(pkg.name) {
            Some(i) => Err(self.packages[i].self_ref),
            None => {
                let r = PackageRef::at(self.packages.len() as int);
                Ok(
                    (
                        ContextView {
                            packages: self.packages.push(PackageView { self_ref: r, ..pkg }),
                            ..self
                        },
                        r,
                    ),
                )
            },
        }
    }

    /// The full name of a type called `name` under the given parent: the
    /// name of the package or the full name of the message, a dot, and
    /// `name`; `name` alone under the anonymous package.
    pub open spec fn child_full_name(self, parent: TypeParent, name: Seq<char>) -> Seq<char> {
        match parent {
            TypeParent::Package(p) => match self.packages[p.index()].name {
                Some(package_name) => package_name + seq!['.'] + name,
                None => name,
            },
            TypeParent::Message(m) => self.types[m.index()].full_name() + seq!['.'] + name,
        }
    }

    /// The reference to the type at the given position, of its kind.
    pub open spec fn type_ref_at(self, i: int) -> TypeRef {
        match self.types[i] {
            TypeInfoView::Message(_) => TypeRef::Message(MessageRef::at(i)),
            TypeInfoView::Enum(_) => TypeRef::Enum(EnumRef::at(i)),
        }
    }

    /// What inserting a type does to a context.
    ///
    /// The full name of the type is made from its parent and its name. The
    /// type is refused, with the reference of the type that is there, if one
    /// has that full name. Otherwise it is put last in the arena, holding its
    /// position as its reference, and its parent lists it last.
    pub open spec fn insert_type(self, ty: TypeInfoView) -> Result<
        (ContextView, TypeRef),
        InsertError,
    >
        recommends
            self.has_parent(ty.parent()),
    {
        let full_name = self.child_full_name(ty.parent(), ty.name());
        match self.type_index(full_name) {
            Some(i) => Err(InsertError::TypeExists { original: self.type_ref_at(i) }),
            None => {
                let placed = ty.placed(full_name, self.types.len() as int);
                let r = placed.self_ref();
                Ok(
                    (
                        match ty.parent() {
                            TypeParent::Package(p) => ContextView {
                                packages: self.packages.update(
                                    p.index(),
                                    PackageView {
                                        types: self.packages[p.index()].types.push(r),
                                        ..self.packages[p.index()]
                                    },
                                ),
                                types: self.types.push(placed),
                                ..self
                            },
                            TypeParent::Message(m) => ContextView {
                                types: self.types.update(
                                    m.index(),
                                    self.types[m.index()].with_inner(r),
                                ).push(placed),
                                ..self
                            },
                        },
                        r,
                    ),
                )
            },
        }
    }

    /// The invariant of a context.
    ///
    /// Every package, type and service holds its own position as its
    /// reference. No two packages have the same name, and no two types the
    /// same full name. The parent of every type is a package or a message of
    /// the context, and the full name of the type is made from it.
    pub open spec fn wf(self) -> bool {
        &&& forall|i: int|
            0 <= i < self.packages.len() ==> (#[trigger] self.packages[i]).self_ref.index() == i
        &&& forall|i: int, j: int|
            0 <= i < j < self.packages.len() ==> (#[trigger] self.packages[i]).name != (
            #[trigger] self.packages[j]).name
        &&& forall|i: int|
            0 <= i < self.types.len() ==> (#[trigger] self.types[i]).self_ref().index() == i
        &&& forall|i: int, j: int|
            0 <= i < j < self.types.len() ==> (#[trigger] self.types[i]).full_name() != (
            #[trigger] self.types[j]).full_name()
        &&& forall|i: int|
            0 <= i < self.types.len() ==> self.has_parent((#[trigger] self.types[i]).parent())
        &&& forall|i: int|
            0 <= i < self.types.len() ==> (#[trigger] self.types[i]).full_name()
                == self.child_full_name(self.types[i].parent(), self.types[i].name())
        &&& forall|i: int|
            0 <= i < self.services.len() ==> (#[trigger] self.services[i]).self_ref.index() == i
    }
}

/// The fields, each one whose number is among `numbers` holding `r` as its
/// `oneof`.
pub open spec fn marked(fields: Seq<MessageFieldView>, numbers: Seq<u64>, r: OneofRef) -> Seq<
    MessageFieldView,
> {
    fields.map_values(
        |f: MessageFieldView|
            if numbers.contains(f.number) {
                MessageFieldView { oneof: Some(r), ..f }
            } else {
                f
            },
    )
}

/// A field with a number that no field has is put in its place by number.
pub proof fn lemma_put_fresh(m: MessageInfoView, f: MessageFieldView)
    requires
        m.field_index(f.number) is None,
    ensures
        put_field(m.fields, f) == m.fields.insert(m.insert_position(f.number), f),
{
    let s = m.fields;
    let same = |g: MessageFieldView| g.number == f.number;
    let above = |g: MessageFieldView| g.number > f.number;
    let from = |g: MessageFieldView| g.number >= f.number;
    lemma_first_match(s, same);
    lemma_first_match(s, above);
    match first_match(s, above) {
        Some(i) => {
            assert forall|j: int| 0 <= j < i implies !from(s[j]) by {
                assert(!above(s[j]));
                assert(!same(s[j]));
            }
            lemma_first_match_is(s, from, i);
        },
        None => {
            assert forall|j: int| 0 <= j < s.len() implies !from(s[j]) by {
                assert(!above(s[j]));
                assert(!same(s[j]));
            }
            lemma_first_match_none(s, from);
            assert(s.push(f) =~= s.insert(s.len() as int, f));
        },
    }
}

/// An enum field with a value that no field has is put in its place by
/// value.
pub proof fn lemma_put_fresh_value(e: EnumInfoView, f: EnumFieldView)
    requires
        e.field_by_value(f.value) is None,
    ensures
        put_enum_field(e.fields, f) == e.fields.insert(e.insert_position(f.value), f),
{
    let s = e.fields;
    let same = |g: EnumFieldView| g.value == f.value;
    let above = |g: EnumFieldView| g.value > f.value;
    let from = |g: EnumFieldView| g.value >= f.value;
    lemma_first_match(s, same);
    lemma_first_match(s, above);
    match first_match(s, above) {
        Some(i) => {
            assert forall|j: int| 0 <= j < i implies !from(s[j]) by {
                assert(!above(s[j]));
                assert(!same(s[j]));
            }
            lemma_first_match_is(s, from, i);
        },
        None => {
            assert forall|j: int| 0 <= j < s.len() implies !from(s[j]) by {
                assert(!above(s[j]));
                assert(!same(s[j]));
            }
            lemma_first_match_none(s, from);
            assert(s.push(f) =~= s.insert(s.len() as int, f));
        },
    }
}

/// Marking one more number: the field with the number `numbers[k]` is put
/// back with `r` as its `oneof`.
pub proof fn lemma_mark_one(m: MessageInfoView, numbers: Seq<u64>, k: int, r: OneofRef)
    requires
        m.fields_ascending(),
        0 <= k < numbers.len(),
        m.field_index(numbers[k]) is Some,
    ensures
        ({
            let now = marked(m.fields, numbers.take(k), r);
            let n = numbers[k];
            let at = first_match(now, |f: MessageFieldView| f.number == n);
            &&& at is Some
            &&& 0 <= at.unwrap() < now.len()
            &&& put_field(now, MessageFieldView { oneof: Some(r), ..now[at.unwrap()] }) == marked(
                m.fields,
                numbers.take(k + 1),
                r,
            )
        }),
{
    let s = m.fields;
    let n = numbers[k];
    let now = marked(s, numbers.take(k), r);
    let next = marked(s, numbers.take(k + 1), r);
    let same = |f: MessageFieldView| f.number == n;
    lemma_first_match(s, same);
    let i = first_match(s, same).unwrap();
    assert forall|j: int| 0 <= j < i implies !same(now[j]) by {
        assert(now[j].number == s[j].number);
    }
    assert(now[i].number == s[i].number);
    lemma_first_match_is(now, same, i);
    let g = MessageFieldView { oneof: Some(r), ..now[i] };
    let from = |h: MessageFieldView| h.number >= g.number;
    assert forall|j: int| 0 <= j < i implies !from(now[j]) by {
        assert(now[j].number == s[j].number);
        assert(s[j].number < s[i].number);
    }
    lemma_first_match_is(now, from, i);
    assert(put_field(now, g) == now.update(i, g));
    assert(numbers.take(k + 1)[k] == n);
    assert forall|x: int| 0 <= x < s.len() implies now.update(i, g)[x] == next[x] by {
        let before = numbers.take(k);
        let after = numbers.take(k + 1);
        if x == i {
            assert(after.contains(n));
        } else {
            assert(s[x].number != n) by {
                if x < i {
                    assert(s[x].number < s[i].number);
                } else {
                    assert(s[i].number < s[x].number);
                }
            }
            if before.contains(s[x].number) {
                let y = choose|y: int| 0 <= y < before.len() && before[y] == s[x].number;
                assert(after[y] == s[x].number);
            }
            if after.contains(s[x].number) {
                let y = choose|y: int| 0 <= y < after.len() && after[y] == s[x].number;
                assert(y != k);
                assert(before[y] == s[x].number);
            }
        }
    }
    assert(now.update(i, g) =~= next);
}

/// A number that a field of the message has is still the number of a field
/// once another field has been added.
pub proof fn lemma_add_field_keeps_numbers(m: MessageInfoView, f: MessageFieldView, n: u64)
    requires
        m.add_field(f) is Ok,
        m.field_index(n) is Some || n == f.number,
    ensures
        m.add_field(f)->Ok_0.field_index(n) is Some,
{
    let after = m.add_field(f)->Ok_0;
    let pos = m.insert_position(f.number);
    let by_number = |g: MessageFieldView| g.number == n;
    lemma_first_match(m.fields, |g: MessageFieldView| g.number > f.number);
    lemma_first_match(m.fields, by_number);
    lemma_first_match(after.fields, by_number);
    if n == f.number {
        assert(by_number(after.fields[pos]));
    } else {
        let i = m.field_index(n)->Some_0;
        if i < pos {
            assert(by_number(after.fields[i]));
        } else {
            assert(after.fields[i + 1] == m.fields[i]);
            assert(by_number(after.fields[i + 1]));
        }
    }
}

/// Adding a field keeps the invariant of a message.
pub proof fn lemma_add_field_wf(m: MessageInfoView, f: MessageFieldView)
    requires
        m.wf(),
        m.add_field(f) is Ok,
    ensures
        m.add_field(f).unwrap().wf(),
{
    let after = m.add_field(f).unwrap();
    let pos = m.insert_position(f.number);
    lemma_first_match(m.fields, |g: MessageFieldView| g.number > f.number);
    lemma_first_match(m.fields, |g: MessageFieldView| g.number == f.number);
    lemma_first_match(m.fields, |g: MessageFieldView| g.name == f.name);
    assert forall|i: int, j: int| 0 <= i < j < after.fields.len() implies after.fields[i].number
        < after.fields[j].number && after.fields[i].name != after.fields[j].name by {
        if j < pos {
        } else if j == pos {
            assert(!(m.fields[i].number > f.number));
            assert(!(m.fields[i].number == f.number));
        } else if i < pos {
            assert(after.fields[j] == m.fields[j - 1]);
        } else if i == pos {
            assert(after.fields[j] == m.fields[j - 1]);
            assert(m.fields[pos].number > f.number);
            if j - 1 > pos {
                assert(m.fields[pos].number < m.fields[j - 1].number);
            }
        } else {
            assert(after.fields[i] == m.fields[i - 1]);
            assert(after.fields[j] == m.fields[j - 1]);
        }
    }
    assert forall|k: int| 0 <= k < after.oneofs.len() implies (
    #[trigger] after.oneofs[k]).self_ref.index() == k && after.oneofs[k].name
        == m.oneofs[k].name by {
        assert(m.oneofs[k].self_ref.index() == k);
    }
    assert forall|i: int|
        0 <= i < after.fields.len() && (#[trigger] after.fields[i]).oneof is Some implies 0
        <= after.fields[i].oneof.unwrap().index() < after.oneofs.len() by {
        if i < pos {
            assert(after.fields[i] == m.fields[i]);
        } else if i > pos {
            assert(after.fields[i] == m.fields[i - 1]);
        }
    }
    assert forall|k: int, x: int|
        0 <= k < after.oneofs.len() && 0 <= x < after.oneofs[k].fields.len() implies after.field_index(
        #[trigger] after.oneofs[k].fields[x],
    ) is Some by {
        let n = after.oneofs[k].fields[x];
        if x < m.oneofs[k].fields.len() {
            assert(n == m.oneofs[k].fields[x]);
            assert(m.field_index(m.oneofs[k].fields[x]) is Some);
        }
        lemma_add_field_keeps_numbers(m, f, n);
    }
}

/// Adding a field keeps the fields of an enum in order and their names
/// distinct.
pub proof fn lemma_add_enum_field_wf(e: EnumInfoView, f: EnumFieldView)
    requires
        e.wf(),
        e.add_field(f) is Ok,
    ensures
        e.add_field(f).unwrap().wf(),
{
    let after = e.add_field(f).unwrap();
    let pos = e.insert_position(f.value);
    lemma_first_match(e.fields, |g: EnumFieldView| g.value > f.value);
    lemma_first_match(e.fields, |g: EnumFieldView| g.value == f.value);
    lemma_first_match(e.fields, |g: EnumFieldView| g.name == f.name);
    assert(e.name_index(f.name) is None);
    assert forall|i: int, j: int| 0 <= i < j < after.fields.len() implies after.fields[i].value
        < after.fields[j].value && after.fields[i].name != after.fields[j].name by {
        if j < pos {
        } else if j == pos {
            assert(!(e.fields[i].value > f.value));
            assert(!(e.fields[i].value == f.value));
        } else if i < pos {
            assert(after.fields[j] == e.fields[j - 1]);
        } else if i == pos {
            assert(after.fields[j] == e.fields[j - 1]);
            assert(e.fields[pos].value > f.value);
            if j - 1 > pos {
                assert(e.fields[pos].value < e.fields[j - 1].value);
            }
        } else {
            assert(after.fields[i] == e.fields[i - 1]);
            assert(after.fields[j] == e.fields[j - 1]);
        }
    }
}

/// Adding a `oneof` keeps the invariant of a message.
pub proof fn lemma_add_oneof_wf(m: MessageInfoView, o: OneofView)
    requires
        m.wf(),
        m.oneofs.len() < usize::MAX,
        m.add_oneof(o) is Ok,
    ensures
        m.add_oneof(o).unwrap().0.wf(),
{
    let after = m.add_oneof(o).unwrap().0;
    lemma_first_match(m.oneofs, |x: OneofView| x.name == o.name);
    lemma_first_match(o.fields, |n: u64| m.field_index(n) is None);
    assert forall|i: int, j: int| 0 <= i < j < after.oneofs.len() implies after.oneofs[i].name
        != after.oneofs[j].name by {
        if j < m.oneofs.len() {
            assert(m.oneofs[i].name != m.oneofs[j].name);
        } else {
            assert(!(|x: OneofView| x.name == o.name)(m.oneofs[i]));
        }
    }
    assert forall|k: int| 0 <= k < after.oneofs.len() implies (
    #[trigger] after.oneofs[k]).self_ref.index() == k by {
        if k < m.oneofs.len() {
            assert(m.oneofs[k].self_ref.index() == k);
        }
    }
    assert forall|i: int|
        0 <= i < after.fields.len() && (#[trigger] after.fields[i]).oneof is Some implies 0
        <= after.fields[i].oneof.unwrap().index() < after.oneofs.len() by {
        if m.fields[i].oneof is Some {
            assert(0 <= m.fields[i].oneof.unwrap().index() < m.oneofs.len());
        }
    }
    assert forall|n: u64| m.field_index(n) is Some implies after.field_index(n) is Some by {
        let by_number = |g: MessageFieldView| g.number == n;
        lemma_first_match(m.fields, by_number);
        lemma_first_match(after.fields, by_number);
        let i = m.field_index(n)->Some_0;
        assert(by_number(after.fields[i]));
    }
    assert forall|k: int, x: int|
        0 <= k < after.oneofs.len() && 0 <= x < after.oneofs[k].fields.len() implies after.field_index(
        #[trigger] after.oneofs[k].fields[x],
    ) is Some by {
        if k < m.oneofs.len() {
            assert(m.field_index(m.oneofs[k].fields[x]) is Some);
        } else {
            assert(!(|n: u64| m.field_index(n) is None)(o.fields[x]));
        }
    }
}

/// Inserting a package keeps a context well-formed.
pub proof fn lemma_insert_package_wf(ctx: ContextView, pkg: PackageView)
    requires
        ctx.wf(),
        ctx.packages.len() < usize::MAX,
        ctx.insert_package(pkg) is Ok,
    ensures
        ctx.insert_package(pkg).unwrap().0.wf(),
{
    let after = ctx.insert_package(pkg).unwrap().0;
    lemma_first_match(ctx.packages, |p: PackageView| p.name == pkg.name);
    assert forall|i: int| 0 <= i < after.types.len() implies after.has_parent(
        (#[trigger] after.types[i]).parent(),
    ) && after.types[i].full_name() == after.child_full_name(
        after.types[i].parent(),
        after.types[i].name(),
    ) by {
        assert(ctx.has_parent(ctx.types[i].parent()));
    }
}

/// Inserting a type keeps a context well-formed.
pub proof fn lemma_insert_type_wf(ctx: ContextView, ty: TypeInfoView)
    requires
        ctx.wf(),
        ctx.types.len() < usize::MAX,
        ctx.has_parent(ty.parent()),
        ctx.insert_type(ty) is Ok,
    ensures
        ctx.insert_type(ty).unwrap().0.wf(),
{
    let after = ctx.insert_type(ty).unwrap().0;
    let full_name = ctx.child_full_name(ty.parent(), ty.name());
    let n = ctx.types.len() as int;
    lemma_first_match(ctx.types, |t: TypeInfoView| t.full_name() == full_name);
    assert forall|i: int| 0 <= i < after.types.len() implies (#[trigger] after.types[i]).self_ref().index()
        == i && after.has_parent(after.types[i].parent()) && after.types[i].full_name()
        == after.child_full_name(after.types[i].parent(), after.types[i].name()) && (i < n
        ==> after.types[i].full_name() == ctx.types[i].full_name()) by {
        if i < n {
            assert(ctx.has_parent(ctx.types[i].parent()));
            assert(ctx.types[i].self_ref().index() == i);
        }
    }
    assert forall|i: int, j: int| 0 <= i < j < after.types.len() implies (
    #[trigger] after.types[i]).full_name() != (#[trigger] after.types[j]).full_name() by {
        if j < n {
            assert(ctx.types[i].full_name() != ctx.types[j].full_name());
        } else {
            assert(!(ctx.types[i].full_name() == full_name));
        }
    }
    assert forall|i: int| 0 <= i < after.packages.len() implies (
    #[trigger] after.packages[i]).self_ref.index() == i by {
        assert(ctx.packages[i].self_ref.index() == i);
    }
    assert forall|i: int, j: int| 0 <= i < j < after.packages.len() implies (
    #[trigger] after.packages[i]).name != (#[trigger] after.packages[j]).name by {
        assert(ctx.packages[i].name != ctx.packages[j].name);
    }
}

/// Duplicate detection: once a type is in a context, a second type with the
/// same name under the same parent is refused, and the error names the
/// first.
pub proof fn lemma_second_insert_refused(ctx: ContextView, first: TypeInfoView, second: TypeInfoView)
    requires
        ctx.types.len() < usize::MAX,
        ctx.has_parent(first.parent()),
        ctx.insert_type(first) is Ok,
        second.parent() == first.parent(),
        second.name() == first.name(),
    ensures
        ctx.insert_type(first).unwrap().0.insert_type(second) == Err::<
            (ContextView, TypeRef),
            InsertError,
        >(InsertError::TypeExists { original: ctx.insert_type(first).unwrap().1 }),
{
    let after = ctx.insert_type(first).unwrap().0;
    let full_name = ctx.child_full_name(first.parent(), first.name());
    let n = ctx.types.len() as int;
    let p = |t: TypeInfoView| t.full_name() == full_name;
    lemma_first_match(ctx.types, p);
    assert(after.child_full_name(second.parent(), second.name()) == full_name);
    assert forall|j: int| 0 <= j < n implies !p(after.types[j]) by {
        assert(!p(ctx.types[j]));
    }
    assert(p(after.types[n]));
    lemma_first_match_is(after.types, p, n);
}

impl Context {
    /// Insert a new message definition to the context.
    ///
    /// The parent of the message must be a package or a message of this
    /// context.
    pub fn insert_message(&mut self, ty: MessageInfo) -> (r: Result<MessageRef, InsertError>)
        requires
            old(self)@.has_parent(ty@.parent),
        ensures
            match old(self)@.insert_type(TypeInfoView::Message(ty@)) {
                Ok((ctx, tr)) => r == Ok::<MessageRef, InsertError>(tr->Message_0) && final(self)@
                    == ctx,
                Err(e) => r == Err::<MessageRef, InsertError>(e) && final(self)@ == old(self)@,
            },
            old(self)@.wf() ==> final(self)@.wf(),
            old(self)@.fields_ascending() && ty@.fields_ascending() ==> final(self)@.fields_ascending(),
    {
        match self.insert_type(TypeInfo::Message(ty)) {
            Ok(ir) => Ok(MessageRef(ir)),
            Err(e) => Err(e),
        }
    }

    /// Insert a new enum definition to the context.
    ///
    /// The parent of the enum must be a package or a message of this context.
    pub fn insert_enum(&mut self, ty: EnumInfo) -> (r: Result<EnumRef, InsertError>)
        requires
            old(self)@.has_parent(ty@.parent),
        ensures
            match old(self)@.insert_type(TypeInfoView::Enum(ty@)) {
                Ok((ctx, tr)) => r == Ok::<EnumRef, InsertError>(tr->Enum_0) && final(self)@ == ctx,
                Err(e) => r == Err::<EnumRef, InsertError>(e) && final(self)@ == old(self)@,
            },
            old(self)@.wf() ==> final(self)@.wf(),
            old(self)@.fields_ascending() && ty@.fields_ascending() ==> final(self)@.fields_ascending(),
    {
        match self.insert_type(TypeInfo::Enum(ty)) {
            Ok(ir) => Ok(EnumRef(ir)),
            Err(e) => Err(e),
        }
    }

    /// Insert a new package to the context.
    ///
    /// Returns an error if the package with the same name already exists.
    pub fn insert_package(&mut self, pkg: Package) -> (r: Result<PackageRef, PackageRef>)
        ensures
            match old(self)@.insert_package(pkg@) {
                Ok((ctx, pr)) => r == Ok::<PackageRef, PackageRef>(pr) && final(self)@ == ctx,
                Err(e) => r == Err::<PackageRef, PackageRef>(e) && final(self)@ == old(self)@,
            },
            old(self)@.wf() ==> final(self)@.wf(),
    {
        let ghost given = pkg@;
        let ghost name = pkg@.name;
        let ghost p = |x: PackageView| x.name == name;
        let mut i: usize = 0;
        while i < self.packages.len()
            invariant
                i <= self.packages.len(),
                *self == *old(self),
                name == pkg@.name,
                given == pkg@,
                p == |x: PackageView| x.name == name,
                forall|j: int| 0 <= j < i ==> !p(self@.packages[j]),
            decreases self.packages.len() - i,
        {
            if same_name(&self.packages[i].name, &pkg.name) {
                proof {
                    lemma_first_match_is(self@.packages, p, i as int);
                }
                return Err(self.packages[i].self_ref);
            }
            i += 1;
        }
        proof {
            lemma_first_match_none(self@.packages, p);
        }
        let pkg_ref = PackageRef(InternalRef(self.packages.len()));
        let mut package = pkg;
        package.self_ref = pkg_ref;
        self.packages.push(package);
        proof {
            assert(self.packages.len() <= usize::MAX);
            assert(self@.packages =~= old(self)@.insert_package(given).unwrap().0.packages);
            if old(self)@.wf() {
                lemma_insert_package_wf(old(self)@, given);
            }
        }
        Ok(pkg_ref)
    }

    /// The position of the type with the given full name.
    pub(crate) fn find_type(&self, full_name: &str) -> (r: Option<usize>)
        ensures
            match self@.type_index(full_name@) {
                Some(i) => r == Some(i as usize) && 0 <= i < self.types@.len(),
                None => r is None,
            },
    {
        let ghost p = |t: TypeInfoView| t.full_name() == full_name@;
        let mut i: usize = 0;
        while i < self.types.len()
            invariant
                i <= self.types.len(),
                p == |t: TypeInfoView| t.full_name() == full_name@,
                forall|j: int| 0 <= j < i ==> !p(self@.types[j]),
            decreases self.types.len() - i,
        {
            if same_text(self.types[i].full_name(), full_name) {
                proof {
                    lemma_first_match_is(self@.types, p, i as int);
                }
                return Some(i);
            }
            i += 1;
        }
        proof {
            lemma_first_match_none(self@.types, p);
        }
        None
    }

    /// The full name of a type called `name` under the given parent.
    pub(crate) fn full_name_under(&self, parent: TypeParent, name: &str) -> (r: String)
        requires
            self@.has_parent(parent),
        ensures
            r@ == self@.child_full_name(parent, name@),
    {
        match parent {
            TypeParent::Package(p) => {
                match &self.packages[(p.0).0].name {
                    Some(package_name) => dotted(package_name.as_str(), name),
                    None => name.to_owned(),
                }
            },
            TypeParent::Message(m) => dotted(self.types[(m.0).0].full_name(), name),
        }
    }

    fn insert_type(&mut self, ty: TypeInfo) -> (r: Result<InternalRef, InsertError>)
        requires
            old(self)@.has_parent(ty@.parent()),
        ensures
            match old(self)@.insert_type(ty@) {
                Ok((ctx, tr)) => r is Ok && r.unwrap().0 == tr.index() && final(self)@ == ctx && (
                tr is Message <==> ty is Message) && tr.index() == old(self).types@.len(),
                Err(e) => r == Err::<InternalRef, InsertError>(e) && final(self)@ == old(self)@,
            },
            old(self)@.wf() ==> final(self)@.wf(),
            old(self)@.fields_ascending() && ty@.fields_ascending() ==> final(self)@.fields_ascending(),
    {
        // First validate the operation, so that nothing has changed where it
        // is refused.
        let mut ty = ty;
        let internal_ref = InternalRef(self.types.len());
        let parent = ty.parent();
        let full_name = self.full_name_under(parent, ty.name());
        match self.find_type(full_name.as_str()) {
            Some(i) => {
                let original = match &self.types[i] {
                    TypeInfo::Message(_) => TypeRef::Message(MessageRef(InternalRef(i))),
                    TypeInfo::Enum(_) => TypeRef::Enum(EnumRef(InternalRef(i))),
                };
                return Err(InsertError::TypeExists { original });
            },
            None => {},
        }
        let ghost given = ty@;
        let ghost expected = old(self)@.insert_type(given).unwrap().0;
        let type_ref = match &mut ty {
            TypeInfo::Message(m) => {
                m.full_name = full_name;
                m.self_ref = MessageRef(internal_ref);
                TypeRef::Message(m.self_ref)
            },
            TypeInfo::Enum(e) => {
                e.full_name = full_name;
                e.self_ref = EnumRef(internal_ref);
                TypeRef::Enum(e.self_ref)
            },
        };
        // From here on the context changes.
        match parent {
            TypeParent::Package(p) => {
                self.packages[(p.0).0].types.push(type_ref);
            },
            TypeParent::Message(m) => {
                match &mut self.types[(m.0).0] {
                    TypeInfo::Message(msg) => {
                        msg.inner_types.push(type_ref);
                    },
                    TypeInfo::Enum(_) => {},
                }
            },
        }
        self.types.push(ty);
        proof {
            assert(self.types.len() <= usize::MAX);
            assert(self@.packages =~= expected.packages);
            assert(self@.types =~= expected.types);
            assert(self@.services =~= expected.services);
            if old(self)@.wf() {
                lemma_insert_type_wf(old(self)@, given);
            }
            if old(self)@.fields_ascending() && given.fields_ascending() {
                assert forall|i: int| 0 <= i < self@.types.len() implies (
                #[trigger] self@.types[i]).fields_ascending() by {
                    if i < old(self)@.types.len() {
                        assert(old(self)@.types[i].fields_ascending());
                    }
                }
            }
        }
        Ok(internal_ref)
    }
}

impl Package {
    /// Create a new package.
    pub fn new(name: Option<String>) -> (r: Self)
        ensures
            r@ == (PackageView {
                name: option_text(name),
                self_ref: PackageRef::at(0),
                types: Seq::empty(),
                services: Seq::empty(),
            }),
    {
        Package { name, self_ref: PackageRef(InternalRef(0)), types: Vec::new(), services: Vec::new() }
    }
}

impl MessageInfo {
    /// Create a new message info.
    ///
    /// Before inserting the message info into a [`Context`] certain fields such as `self_ref` or
    /// `full_name` are not valid.
    pub fn new(name: String, parent: TypeParent) -> (r: Self)
        ensures
            r@ == (MessageInfoView {
                name: name@,
                full_name: Seq::empty(),
                parent,
                self_ref: MessageRef::at(0),
                oneofs: Seq::empty(),
                inner_types: Seq::empty(),
                fields: Seq::empty(),
            }),
            r@.wf(),
    {
        let r = MessageInfo {
            name,
            parent,
            full_name: String::new(),
            self_ref: MessageRef(InternalRef(0)),
            oneofs: Vec::new(),
            inner_types: Vec::new(),
            fields: BTreeMap::new(),
        };
        proof {
            lemma_no_fields();
        }
        assert(r@.oneofs =~= Seq::empty());
        assert(r@.fields =~= Seq::empty());
        r
    }

    /// Add a field to the type.
    pub fn add_field(&mut self, field: MessageField) -> (r: Result<(), MemberInsertError>)
        ensures
            match old(self)@.add_field(field@) {
                Ok(m) => r is Ok && final(self)@ == m,
                Err(e) => r == Err::<(), MemberInsertError>(e) && final(self)@ == old(self)@,
            },
            old(self)@.wf() ==> final(self)@.wf(),
    {
        let num: u64 = field.number;
        if self.get_field(num).is_some() {
            return Err(MemberInsertError::NumberConflict);
        }
        if self.get_field_by_name(field.name.as_str()).is_some() {
            return Err(MemberInsertError::NameConflict);
        }
        let ghost expected = old(self)@.add_field(field@);
        match field.oneof {
            Some(oneof_ref) => {
                let k: usize = (oneof_ref.0).0;
                if k >= self.oneofs.len() {
                    return Err(MemberInsertError::MissingOneof);
                }
                self.oneofs[k].fields.push(num);
            },
            None => {},
        }
        proof {
            if old(self)@.wf() {
                lemma_add_field_wf(old(self)@, field@);
            }
            lemma_put_fresh(old(self)@, field@);
        }
        put_in(&mut self.fields, field);
        assert(self@.fields =~= expected.unwrap().fields);
        assert(self@.oneofs =~= expected.unwrap().oneofs);
        Ok(())
    }

    /// Add a oneof record to the message.
    pub fn add_oneof(&mut self, oneof: Oneof) -> (r: Result<OneofRef, OneofInsertError>)
        ensures
            match old(self)@.add_oneof(oneof@) {
                Ok((m, oneof_ref)) => r == Ok::<OneofRef, OneofInsertError>(oneof_ref) && final(self)@ == m,
                Err(e) => r == Err::<OneofRef, OneofInsertError>(e) && final(self)@ == old(self)@,
            },
            old(self)@.wf() ==> final(self)@.wf(),
    {
        let oneof_ref = OneofRef(InternalRef(self.oneofs.len()));
        let ghost given = oneof@;
        let ghost me = old(self)@;
        let ghost name = given.name;
        let ghost by_name = |x: OneofView| x.name == name;
        let mut i: usize = 0;
        while i < self.oneofs.len()
            invariant
                i <= self.oneofs.len(),
                *self == *old(self),
                given == oneof@,
                me == old(self)@,
                name == given.name,
                by_name == |x: OneofView| x.name == name,
                forall|j: int| 0 <= j < i ==> !by_name(self@.oneofs[j]),
            decreases self.oneofs.len() - i,
        {
            if same_text(self.oneofs[i].name.as_str(), oneof.name.as_str()) {
                proof {
                    lemma_first_match_is(self@.oneofs, by_name, i as int);
                }
                return Err(OneofInsertError::NameConflict);
            }
            i += 1;
        }
        proof {
            lemma_first_match_none(self@.oneofs, by_name);
        }
        // Every number that the oneof lists must be that of a field.
        let ghost missing = |n: u64| me.field_index(n) is None;
        let mut k: usize = 0;
        while k < oneof.fields.len()
            invariant
                k <= oneof.fields.len(),
                *self == *old(self),
                given == oneof@,
                me == old(self)@,
                me.oneof_index(given.name) is None,
                missing == |n: u64| me.field_index(n) is None,
                forall|j: int| 0 <= j < k ==> !missing(oneof.fields@[j]),
            decreases oneof.fields.len() - k,
        {
            let number: u64 = oneof.fields[k];
            if self.get_field(number).is_none() {
                proof {
                    lemma_first_match_is(given.fields, missing, k as int);
                }
                return Err(OneofInsertError::FieldNotFound { field: number });
            }
            k += 1;
        }
        proof {
            lemma_first_match_none(given.fields, missing);
        }
        let ghost expected = me.add_oneof(given).unwrap().0;
        // From here on the message changes.
        proof {
            lemma_fields_ascending(old(self).fields@);
            lemma_first_match(given.fields, missing);
            assert(given.fields.take(0) =~= Seq::<u64>::empty());
            assert(marked(me.fields, given.fields.take(0), oneof_ref) =~= me.fields);
        }
        let mut j: usize = 0;
        while j < oneof.fields.len()
            invariant
                j <= oneof.fields.len(),
                self.oneofs == old(self).oneofs,
                self.name == old(self).name,
                self.full_name == old(self).full_name,
                self.parent == old(self).parent,
                self.self_ref == old(self).self_ref,
                self.inner_types == old(self).inner_types,
                oneof_ref == OneofRef::at(old(self).oneofs@.len() as int),
                given == oneof@,
                me == old(self)@,
                me.fields_ascending(),
                forall|x: int|
                    0 <= x < given.fields.len() ==> me.field_index(#[trigger] given.fields[x])
                        is Some,
                fields_in_order(self.fields@) == marked(
                    me.fields,
                    given.fields.take(j as int),
                    oneof_ref,
                ),
            decreases oneof.fields.len() - j,
        {
            let number: u64 = oneof.fields[j];
            proof {
                assert(me.field_index(given.fields[j as int]) is Some);
                lemma_mark_one(me, given.fields, j as int, oneof_ref);
            }
            let member: Option<MessageField> = match field_in(&self.fields, number) {
                Some(f) => Some(in_oneof(f, oneof_ref)),
                None => None,
            };
            match member {
                Some(f) => {
                    put_in(&mut self.fields, f);
                },
                None => {},
            }
            j += 1;
        }
        assert(given.fields.take(oneof.fields@.len() as int) =~= given.fields);
        assert(marked(me.fields, given.fields, oneof_ref) =~= expected.fields);
        let mut record = oneof;
        record.self_ref = oneof_ref;
        self.oneofs.push(record);
        proof {
            assert(self.oneofs.len() <= usize::MAX);
            assert(self@.fields =~= expected.fields);
            assert(self@.oneofs =~= expected.oneofs);
            if me.wf() {
                lemma_add_oneof_wf(me, given);
            }
        }
        Ok(oneof_ref)
    }
}

/// A copy of the field that is part of the `oneof` behind `r`.
pub fn in_oneof(f: &MessageField, r: OneofRef) -> (g: MessageField)
    ensures
        g@ == (MessageFieldView { oneof: Some(r), ..f@ }),
{
    MessageField {
        name: f.name.clone(),
        number: f.number,
        field_type: f.field_type,
        multiplicity: f.multiplicity,
        options: copy_options(&f.options),
        oneof: Some(r),
    }
}

/// Whether `number` is one of `numbers`.
pub fn contains_number(numbers: &Vec<u64>, number: u64) -> (r: bool)
    ensures
        r == numbers@.contains(number),
{
    let mut i: usize = 0;
    while i < numbers.len()
        invariant
            i <= numbers.len(),
            forall|j: int| 0 <= j < i ==> numbers@[j] != number,
        decreases numbers.len() - i,
    {
        if numbers[i] == number {
            return true;
        }
        i += 1;
    }
    false
}

impl MessageField {
    /// Create a new message field.
    pub fn new(name: String, number: u64, field_type: ValueType) -> (r: Self)
        ensures
            r@ == (MessageFieldView {
                name: name@,
                number,
                field_type,
                multiplicity: Multiplicity::Single,
                options: Seq::empty(),
                oneof: None,
            }),
    {
        let r = MessageField {
            name,
            number,
            field_type,
            multiplicity: Multiplicity::Single,
            options: Vec::new(),
            oneof: None,
        };
        assert(r@.options =~= Seq::empty());
        r
    }
}

impl Oneof {
    /// Create a new Oneof definition.
    pub fn new(name: String) -> (r: Self)
        ensures
            r@ == (OneofView {
                name: name@,
                self_ref: OneofRef::at(0),
                fields: Seq::empty(),
                options: Seq::empty(),
            }),
    {
        let r = Oneof {
            name,
            self_ref: OneofRef(InternalRef(0)),
            fields: Vec::new(),
            options: Vec::new(),
        };
        assert(r@.options =~= Seq::empty());
        r
    }
}

impl EnumInfo {
    /// Create a new enum info.
    pub fn new(name: String, parent: TypeParent) -> (r: Self)
        ensures
            r@ == (EnumInfoView {
                name: name@,
                full_name: Seq::empty(),
                parent,
                self_ref: EnumRef::at(0),
                fields: Seq::empty(),
            }),
            r@.wf(),
    {
        let r = EnumInfo {
            name,
            parent,
            full_name: String::new(),
            self_ref: EnumRef(InternalRef(0)),
            fields: BTreeMap::new(),
        };
        proof {
            lemma_no_values();
        }
        assert(r@.fields =~= Seq::empty());
        r
    }

    /// Add a field to the enum definition.
    pub fn add_field(&mut self, field: EnumField) -> (r: Result<(), MemberInsertError>)
        ensures
            match old(self)@.add_field(field@) {
                Ok(e) => r is Ok && final(self)@ == e,
                Err(e) => r == Err::<(), MemberInsertError>(e) && final(self)@ == old(self)@,
            },
            old(self)@.wf() ==> final(self)@.wf(),
    {
        let value: i64 = field.value;
        if self.get_field_by_value(value).is_some() {
            return Err(MemberInsertError::NumberConflict);
        }
        let ghost name = field@.name;
        let ghost by_name = |g: EnumFieldView| g.name == name;
        let listed = values_of(&self.fields);
        let mut i: usize = 0;
        while i < listed.len()
            invariant
                i <= listed.len(),
                *self == *old(self),
                listed@.len() == self@.fields.len(),
                forall|j: int| 0 <= j < listed@.len() ==> listed@[j]@ == self@.fields[j],
                name == field@.name,
                old(self)@.field_by_value(field@.value) is None,
                by_name == |g: EnumFieldView| g.name == name,
                forall|j: int| 0 <= j < i ==> !by_name(self@.fields[j]),
            decreases listed.len() - i,
        {
            if same_text(listed[i].name.as_str(), field.name.as_str()) {
                proof {
                    lemma_first_match_is(self@.fields, by_name, i as int);
                }
                return Err(MemberInsertError::NameConflict);
            }
            i += 1;
        }
        proof {
            lemma_first_match_none(self@.fields, by_name);
            if old(self)@.wf() {
                lemma_add_enum_field_wf(old(self)@, field@);
            }
        }
        let ghost expected = old(self)@.add_field(field@);
        proof {
            lemma_put_fresh_value(old(self)@, field@);
        }
        put_value_in(&mut self.fields, field);
        assert(self@.fields =~= expected.unwrap().fields);
        Ok(())
    }
}

impl EnumField {
    /// Create a new enum field.
    pub fn new(name: String, value: i64) -> (r: Self)
        ensures
            r@ == (EnumFieldView { name: name@, value, options: Seq::empty() }),
    {
        let r = EnumField { name, value, options: Vec::new() };
        assert(r@.options =~= Seq::empty());
        r
    }
}

} // verus!
