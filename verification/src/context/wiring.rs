//! The two ways of putting fields into a `oneof` give the same message.
//!
//! A `oneof` can be added first, empty, and each member field added
//! afterwards with a reference to it; or the fields can be added first,
//! without a reference, and the `oneof` added afterwards with the list of
//! their numbers.

use vstd::prelude::*;

use crate::context::{
    MemberInsertError, MessageFieldView, MessageInfoView, OneofInsertError, OneofRef, OneofView,
};
use crate::search::{first_match, lemma_first_match};

verus! {

/// Adds the fields to the message, in order; the first refusal ends it.
pub open spec fn add_fields(m: MessageInfoView, fields: Seq<MessageFieldView>) -> Result<
    MessageInfoView,
    MemberInsertError,
>
    decreases fields.len(),
{
    if fields.len() == 0 {
        Ok(m)
    } else {
        match add_fields(m, fields.drop_last()) {
            Ok(before) => before.add_field(fields.last()),
            Err(e) => Err(e),
        }
    }
}

/// The fields, each holding `r` as its `oneof`.
pub open spec fn members_of(fields: Seq<MessageFieldView>, r: OneofRef) -> Seq<MessageFieldView> {
    Seq::new(fields.len(), |i: int| MessageFieldView { oneof: Some(r), ..fields[i] })
}

/// The numbers of the fields, in order.
pub open spec fn numbers_of(fields: Seq<MessageFieldView>) -> Seq<u64> {
    Seq::new(fields.len(), |i: int| fields[i].number)
}

/// The fields with `r` as the `oneof` of each one whose number is among
/// `numbers`.
pub open spec fn marked(fields: Seq<MessageFieldView>, numbers: Seq<u64>, r: OneofRef) -> Seq<
    MessageFieldView,
> {
    Seq::new(
        fields.len(),
        |i: int|
            if numbers.contains(fields[i].number) {
                MessageFieldView { oneof: Some(r), ..fields[i] }
            } else {
                fields[i]
            },
    )
}

/// How the message with the `oneof` first and `k` member fields added (`a`)
/// relates to the message with the same `k` fields added without a `oneof`
/// (`b`).
pub open spec fn wired(
    m: MessageInfoView,
    o: OneofView,
    r: OneofRef,
    numbers: Seq<u64>,
    a: MessageInfoView,
    b: MessageInfoView,
) -> bool {
    &&& a.fields == marked(b.fields, numbers, r)
    &&& a.oneofs == m.oneofs.push(OneofView { self_ref: r, fields: numbers, ..o })
    &&& b.oneofs == m.oneofs
    &&& a.name == b.name && a.full_name == b.full_name && a.parent == b.parent && a.self_ref
        == b.self_ref && a.inner_types == b.inner_types
    &&& forall|x: int| 0 <= x < numbers.len() ==> b.field_index(#[trigger] numbers[x]) is Some
    &&& forall|i: int|
        0 <= i < b.fields.len() && !numbers.contains((#[trigger] b.fields[i]).number)
            ==> a.fields[i] == b.fields[i]
}

/// Marking keeps the numbers and names of the fields, so that a number or a
/// name is taken in the one list where it is taken in the other.
proof fn lemma_marked_lookups(b: MessageInfoView, a: MessageInfoView, numbers: Seq<u64>, r: OneofRef, f: MessageFieldView)
    requires
        a.fields == marked(b.fields, numbers, r),
    ensures
        a.field_index(f.number) == b.field_index(f.number),
        a.field_by_name(f.name) is Some <==> b.field_by_name(f.name) is Some,
        a.insert_position(f.number) == b.insert_position(f.number),
{
    let by_number = |g: MessageFieldView| g.number == f.number;
    let by_name = |g: MessageFieldView| g.name == f.name;
    let greater = |g: MessageFieldView| g.number > f.number;
    lemma_first_match(a.fields, by_number);
    lemma_first_match(b.fields, by_number);
    lemma_first_match(a.fields, by_name);
    lemma_first_match(b.fields, by_name);
    lemma_first_match(a.fields, greater);
    lemma_first_match(b.fields, greater);
    assert forall|i: int| 0 <= i < a.fields.len() implies by_number(a.fields[i]) == by_number(
        b.fields[i],
    ) && by_name(a.fields[i]) == by_name(b.fields[i]) && greater(a.fields[i]) == greater(
        b.fields[i],
    ) by {}
    match first_match(a.fields, by_number) {
        Some(i) => {
            assert(by_number(b.fields[i]));
            match first_match(b.fields, by_number) {
                Some(j) => {
                    assert(by_number(a.fields[j]));
                },
                None => {},
            }
        },
        None => {
            match first_match(b.fields, by_number) {
                Some(j) => {
                    assert(by_number(a.fields[j]));
                },
                None => {},
            }
        },
    }
    match first_match(a.fields, by_name) {
        Some(i) => {
            assert(by_name(b.fields[i]));
        },
        None => {
            match first_match(b.fields, by_name) {
                Some(j) => {
                    assert(by_name(a.fields[j]));
                },
                None => {},
            }
        },
    }
    match first_match(a.fields, greater) {
        Some(i) => {
            assert(greater(b.fields[i]));
            match first_match(b.fields, greater) {
                Some(j) => {
                    assert(greater(a.fields[j]));
                },
                None => {},
            }
        },
        None => {
            match first_match(b.fields, greater) {
                Some(j) => {
                    assert(greater(a.fields[j]));
                },
                None => {},
            }
        },
    }
}

/// One more member field keeps the two messages related, and is refused on
/// the one side where it is refused on the other, for the same reason.
proof fn lemma_wired_step(
    m: MessageInfoView,
    o: OneofView,
    r: OneofRef,
    numbers: Seq<u64>,
    a: MessageInfoView,
    b: MessageInfoView,
    f: MessageFieldView,
)
    requires
        wired(m, o, r, numbers, a, b),
        r.index() == m.oneofs.len(),
        f.oneof is None,
    ensures
        a.add_field(MessageFieldView { oneof: Some(r), ..f }) is Ok <==> b.add_field(f) is Ok,
        b.add_field(f) is Err ==> a.add_field(MessageFieldView { oneof: Some(r), ..f })
            == Err::<MessageInfoView, MemberInsertError>(b.add_field(f)->Err_0),
        b.add_field(f) is Ok ==> wired(
            m,
            o,
            r,
            numbers.push(f.number),
            a.add_field(MessageFieldView { oneof: Some(r), ..f })->Ok_0,
            b.add_field(f)->Ok_0,
        ),
{
    let member = MessageFieldView { oneof: Some(r), ..f };
    lemma_marked_lookups(b, a, numbers, r, f);
    if b.add_field(f) is Ok {
        let a2 = a.add_field(member)->Ok_0;
        let b2 = b.add_field(f)->Ok_0;
        let more = numbers.push(f.number);
        let pos = b.insert_position(f.number);
        lemma_first_match(b.fields, |g: MessageFieldView| g.number > f.number);
        lemma_first_match(b.fields, |g: MessageFieldView| g.number == f.number);
        assert(0 <= pos <= b.fields.len());
        assert(more.last() == f.number);
        assert(more.contains(f.number));
        assert forall|x: u64| numbers.contains(x) implies more.contains(x) by {
            let i = choose|i: int| 0 <= i < numbers.len() && numbers[i] == x;
            assert(more[i] == x);
        }
        assert forall|x: u64| more.contains(x) && x != f.number implies numbers.contains(x) by {
            let i = choose|i: int| 0 <= i < more.len() && more[i] == x;
            assert(numbers[i] == x);
        }
        assert forall|i: int| 0 <= i < b.fields.len() implies b.fields[i].number != f.number by {
            assert(!(|g: MessageFieldView| g.number == f.number)(b.fields[i]));
        }
        assert(a2.fields =~= marked(b2.fields, more, r)) by {
            assert forall|i: int| 0 <= i < a2.fields.len() implies a2.fields[i] == marked(
                b2.fields,
                more,
                r,
            )[i] by {
                if i < pos {
                    assert(b2.fields[i] == b.fields[i]);
                    assert(a2.fields[i] == a.fields[i]);
                } else if i == pos {
                    assert(b2.fields[i] == f);
                    assert(a2.fields[i] == member);
                } else {
                    assert(b2.fields[i] == b.fields[i - 1]);
                    assert(a2.fields[i] == a.fields[i - 1]);
                }
            }
        }
        assert(a2.oneofs =~= m.oneofs.push(OneofView { self_ref: r, fields: more, ..o }));
        assert forall|x: int| 0 <= x < more.len() implies b2.field_index(
            #[trigger] more[x],
        ) is Some by {
            let n = more[x];
            let by_number = |g: MessageFieldView| g.number == n;
            lemma_first_match(b2.fields, by_number);
            if x < numbers.len() {
                assert(numbers[x] == n);
                lemma_first_match(b.fields, by_number);
                let i = b.field_index(n).unwrap();
                if i < pos {
                    assert(by_number(b2.fields[i]));
                } else {
                    assert(b2.fields[i + 1] == b.fields[i]);
                    assert(by_number(b2.fields[i + 1]));
                }
            } else {
                assert(by_number(b2.fields[pos]));
            }
        }
        assert forall|i: int|
            0 <= i < b2.fields.len() && !more.contains(
                (#[trigger] b2.fields[i]).number,
            ) implies a2.fields[i] == b2.fields[i] by {
            if i < pos {
                assert(b2.fields[i] == b.fields[i]);
                assert(a2.fields[i] == a.fields[i]);
            } else if i == pos {
                assert(b2.fields[i] == f);
            } else {
                assert(b2.fields[i] == b.fields[i - 1]);
                assert(a2.fields[i] == a.fields[i - 1]);
            }
        }
    }
}

/// Adding the member fields one by one keeps the two messages related.
proof fn lemma_wired_fields(
    m: MessageInfoView,
    o: OneofView,
    r: OneofRef,
    fields: Seq<MessageFieldView>,
)
    requires
        o.fields.len() == 0,
        m.add_oneof(o) is Ok,
        r == m.add_oneof(o)->Ok_0.1,
        r.index() == m.oneofs.len(),
        forall|i: int| 0 <= i < fields.len() ==> (#[trigger] fields[i]).oneof is None,
    ensures
        add_fields(m.add_oneof(o)->Ok_0.0, members_of(fields, r)) is Ok <==> add_fields(
            m,
            fields,
        ) is Ok,
        add_fields(m, fields) is Err ==> add_fields(m.add_oneof(o)->Ok_0.0, members_of(fields, r))
            == add_fields(m, fields),
        add_fields(m, fields) is Ok ==> wired(
            m,
            o,
            r,
            numbers_of(fields),
            add_fields(m.add_oneof(o)->Ok_0.0, members_of(fields, r))->Ok_0,
            add_fields(m, fields)->Ok_0,
        ),
    decreases fields.len(),
{
    let first = m.add_oneof(o)->Ok_0.0;
    if fields.len() == 0 {
        assert(numbers_of(fields) =~= Seq::<u64>::empty());
        assert(first.fields =~= marked(m.fields, Seq::<u64>::empty(), r));
        assert(o.fields =~= Seq::<u64>::empty());
        assert(first.oneofs =~= m.oneofs.push(
            OneofView { self_ref: r, fields: Seq::<u64>::empty(), ..o },
        ));
    } else {
        let shorter = fields.drop_last();
        let f = fields.last();
        lemma_wired_fields(m, o, r, shorter);
        assert(members_of(fields, r).drop_last() =~= members_of(shorter, r));
        assert(members_of(fields, r).last() == MessageFieldView { oneof: Some(r), ..f });
        if add_fields(m, shorter) is Ok {
            let a = add_fields(first, members_of(shorter, r))->Ok_0;
            let b = add_fields(m, shorter)->Ok_0;
            lemma_wired_step(m, o, r, numbers_of(shorter), a, b, f);
            assert(numbers_of(fields) =~= numbers_of(shorter).push(f.number));
        }
    }
}

/// Oneof wiring symmetry.
///
/// Take a message, a `oneof` that lists no fields, and fields that name no
/// `oneof`. Adding the `oneof` and then each field as its member is refused
/// exactly where adding the fields and then the `oneof` with the list of
/// their numbers is refused; and where both succeed, the two messages are
/// the same, down to the order of the fields and of the numbers that the
/// `oneof` lists.
pub proof fn lemma_oneof_wiring_symmetric(
    m: MessageInfoView,
    o: OneofView,
    fields: Seq<MessageFieldView>,
)
    requires
        o.fields.len() == 0,
        m.oneofs.len() <= usize::MAX,
        forall|i: int| 0 <= i < fields.len() ==> (#[trigger] fields[i]).oneof is None,
        m.add_oneof(o) is Ok,
    ensures
        ({
            let (first, r) = m.add_oneof(o)->Ok_0;
            let by_reference = add_fields(first, members_of(fields, r));
            let plain = add_fields(m, fields);
            &&& by_reference is Ok <==> plain is Ok
            &&& plain is Ok ==> plain->Ok_0.add_oneof(
                OneofView { fields: numbers_of(fields), ..o },
            ) == Ok::<(MessageInfoView, OneofRef), OneofInsertError>((by_reference->Ok_0, r))
        }),
{
    let (first, r) = m.add_oneof(o)->Ok_0;
    lemma_wired_fields(m, o, r, fields);
    let plain = add_fields(m, fields);
    if plain is Ok {
        let a = add_fields(first, members_of(fields, r))->Ok_0;
        let b = plain->Ok_0;
        let numbers = numbers_of(fields);
        let listed = OneofView { fields: numbers, ..o };
        assert(b.oneof_index(listed.name) == m.oneof_index(o.name));
        let missing = |n: u64| b.field_index(n) is None;
        lemma_first_match(numbers, missing);
        assert(b.first_missing(numbers) is None) by {
            match first_match(numbers, missing) {
                Some(i) => {
                    assert(b.field_index(numbers[i]) is Some);
                },
                None => {},
            }
        }
        let (after, r2) = b.add_oneof(listed)->Ok_0;
        assert(r2 == r);
        assert(after.fields =~= a.fields);
        assert(after.oneofs =~= a.oneofs);
    }
}

} // verus!
