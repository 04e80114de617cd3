//! The fields of a message, kept in a map by their numbers, and those of an
//! enum, kept in a map by their values.
//!
//! A map is walked in the order of its keys, so the fields of a message come
//! in ascending order of their numbers, and those of an enum in ascending
//! order of their values. A field counts where it stands under its own
//! number or value, which is where [`put_in`] and [`put_value_in`] put it.

use std::collections::BTreeMap;

use vstd::prelude::*;
use vstd::std_specs::btree::{axiom_increasing_seq_meaning, increasing_seq};
use vstd::std_specs::cmp::OrdSpec;
use vstd::std_specs::iter::IteratorSpec;

use super::ordered::{
    at_key, in_key_order, lemma_key_at, lemma_key_at_ascending, lemma_order_agrees,
    lemma_order_around, lemma_order_listing, lemma_order_of_none, same_at,
};
use super::resolve::{put_enum_field, put_field};
use super::{EnumField, EnumFieldView, MessageField, MessageFieldView};
use crate::search::{first_match, lemma_first_match_is, lemma_first_match_none};

verus! {

/// One more than the greatest field number.
pub open spec fn number_limit() -> int {
    0x1_0000_0000_0000_0000
}

/// The fields of the map by number, as views.
pub open spec fn numbered(m: Map<u64, MessageField>) -> Map<int, MessageFieldView> {
    Map::new(
        |k: int| 0 <= k < number_limit() && m.contains_key(k as u64) && m[k as u64].number == k,
        |k: int| m[k as u64]@,
    )
}

/// The fields of the map in ascending order of their numbers.
pub open spec fn fields_in_order(m: Map<u64, MessageField>) -> Seq<MessageFieldView> {
    in_key_order(numbered(m), 0, number_limit())
}

/// The fields with a number from `lo` up to `hi`, `hi` not included.
pub open spec fn fields_between(m: Map<u64, MessageField>, lo: int, hi: int) -> Seq<
    MessageFieldView,
> {
    in_key_order(numbered(m), lo, hi)
}

/// A map without entries has no fields.
pub proof fn lemma_no_fields()
    ensures
        fields_in_order(Map::<u64, MessageField>::empty()) == Seq::<MessageFieldView>::empty(),
{
    lemma_order_of_none(numbered(Map::<u64, MessageField>::empty()), 0, number_limit());
}

/// The fields of a range have numbers of that range.
pub proof fn lemma_numbers_between(m: Map<u64, MessageField>, lo: int, hi: int)
    requires
        0 <= lo,
        hi <= number_limit(),
    ensures
        forall|i: int|
            0 <= i < fields_between(m, lo, hi).len() ==> lo <= (#[trigger] fields_between(
                m,
                lo,
                hi,
            )[i]).number < hi,
{
    assert forall|i: int| 0 <= i < fields_between(m, lo, hi).len() implies lo <= (
    #[trigger] fields_between(m, lo, hi)[i]).number < hi by {
        lemma_key_at(numbered(m), lo, hi, i);
    }
}

/// The fields stand in strictly ascending order of their numbers.
pub proof fn lemma_fields_ascending(m: Map<u64, MessageField>)
    ensures
        forall|i: int, j: int|
            0 <= i < j < fields_in_order(m).len() ==> fields_in_order(m)[i].number
                < fields_in_order(m)[j].number,
{
    assert forall|i: int, j: int| 0 <= i < j < fields_in_order(m).len() implies fields_in_order(
        m,
    )[i].number < fields_in_order(m)[j].number by {
        lemma_key_at(numbered(m), 0, number_limit(), i);
        lemma_key_at(numbered(m), 0, number_limit(), j);
        lemma_key_at_ascending(numbered(m), 0, number_limit(), i, j);
    }
}

/// The fields are those with a smaller number, the field with the number
/// `n` if there is one, and those with a greater number.
pub proof fn lemma_fields_around(m: Map<u64, MessageField>, n: u64)
    ensures
        fields_in_order(m) == fields_between(m, 0, n as int) + at_key(numbered(m), n as int)
            + fields_between(m, n + 1, number_limit()),
        forall|i: int|
            0 <= i < fields_between(m, 0, n as int).len() ==> (#[trigger] fields_between(
                m,
                0,
                n as int,
            )[i]).number < n,
        forall|i: int|
            0 <= i < fields_between(m, n + 1, number_limit()).len() ==> (
            #[trigger] fields_between(m, n + 1, number_limit())[i]).number > n,
{
    lemma_order_around(numbered(m), 0, n as int, number_limit());
    lemma_numbers_between(m, 0, n as int);
    lemma_numbers_between(m, n + 1, number_limit());
}

/// The field with the given number.
pub fn field_in<'a>(fields: &'a BTreeMap<u64, MessageField>, number: u64) -> (r: Option<
    &'a MessageField,
>)
    ensures
        match first_match(fields_in_order(fields@), |f: MessageFieldView| f.number == number) {
            Some(i) => r is Some && r.unwrap()@ == fields_in_order(fields@)[i],
            None => r is None,
        },
{
    let ghost all = fields_in_order(fields@);
    let ghost below = fields_between(fields@, 0, number as int);
    let ghost above = fields_between(fields@, number + 1, number_limit());
    let ghost p = |f: MessageFieldView| f.number == number;
    proof {
        lemma_fields_around(fields@, number);
    }
    match fields.get(&number) {
        Some(f) => {
            // A field counts under its own number only.
            if f.number == number {
                proof {
                    assert(numbered(fields@).contains_key(number as int));
                    assert(all =~= below + seq![f@] + above);
                    assert(all[below.len() as int] == f@);
                    assert forall|j: int| 0 <= j < below.len() implies !p(all[j]) by {
                        assert(all[j] == below[j]);
                    }
                    lemma_first_match_is(all, p, below.len() as int);
                }
                return Some(f);
            }
        },
        None => {},
    }
    proof {
        assert(!numbered(fields@).contains_key(number as int));
        assert(all =~= below + above);
        assert forall|j: int| 0 <= j < all.len() implies !p(all[j]) by {
            if j < below.len() {
                assert(all[j] == below[j]);
            } else {
                assert(all[j] == above[j - below.len()]);
            }
        }
        lemma_first_match_none(all, p);
    }
    None
}

/// Puts a field into the map under its number, in the place of the field
/// that had the number, if there was one.
pub fn put_in(fields: &mut BTreeMap<u64, MessageField>, field: MessageField)
    ensures
        fields_in_order(final(fields)@) == put_field(fields_in_order(old(fields)@), field@),
{
    let ghost before = fields@;
    let ghost given = field@;
    let number: u64 = field.number;
    fields.insert(number, field);
    proof {
        let after = fields@;
        let n = number as int;
        let all = fields_in_order(before);
        let below = fields_between(before, 0, n);
        let above = fields_between(before, n + 1, number_limit());
        let p = |g: MessageFieldView| g.number >= given.number;
        lemma_fields_around(before, number);
        lemma_fields_around(after, number);
        assert forall|k: int| 0 <= k < n implies #[trigger] same_at(
            numbered(before),
            numbered(after),
            k,
        ) by {}
        assert forall|k: int| n + 1 <= k < number_limit() implies #[trigger] same_at(
            numbered(before),
            numbered(after),
            k,
        ) by {}
        lemma_order_agrees(numbered(before), numbered(after), 0, n);
        lemma_order_agrees(numbered(before), numbered(after), n + 1, number_limit());
        assert(numbered(after).contains_key(n));
        assert(fields_in_order(after) =~= below + seq![given] + above);
        assert forall|j: int| 0 <= j < below.len() implies !p(all[j]) by {
            assert(all[j] == below[j]);
        }
        if numbered(before).contains_key(n) {
            assert(all =~= below + seq![numbered(before)[n]] + above);
            assert(all[below.len() as int].number == number);
            lemma_first_match_is(all, p, below.len() as int);
            assert(all.update(below.len() as int, given) =~= below + seq![given] + above);
        } else if above.len() > 0 {
            assert(all =~= below + above);
            assert(all[below.len() as int] == above[0]);
            lemma_first_match_is(all, p, below.len() as int);
            assert(all.insert(below.len() as int, given) =~= below + seq![given] + above);
        } else {
            assert(all =~= below);
            lemma_first_match_none(all, p);
            assert(all.push(given) =~= below + seq![given] + above);
        }
    }
}

/// Numbers that a map gives in increasing order grow strictly.
pub proof fn lemma_numbers_grow(keys: Seq<u64>)
    requires
        increasing_seq(keys),
    ensures
        forall|i: int, j: int| 0 <= i < j < keys.len() ==> keys[i] < keys[j],
{
    axiom_increasing_seq_meaning(keys);
    assert forall|i: int, j: int| 0 <= i < j < keys.len() implies keys[i] < keys[j] by {
        assert(keys[i].cmp_spec(&keys[j]) is Less);
    }
}

/// The fields of the map, in ascending order of their numbers.
pub fn fields_of<'a>(fields: &'a BTreeMap<u64, MessageField>) -> (r: Vec<&'a MessageField>)
    ensures
        r@.len() == fields_in_order(fields@).len(),
        forall|i: int| 0 <= i < r@.len() ==> r@[i]@ == fields_in_order(fields@)[i],
{
    let mut out: Vec<&MessageField> = Vec::new();
    let ghost mut keys: Seq<int> = Seq::empty();
    let ghost mut places: Seq<int> = Seq::empty();
    let walker = fields.iter();
    let ghost all = walker.remaining();
    proof {
        let numbers = all.map_values(|kv: (&u64, &MessageField)| *kv.0);
        lemma_numbers_grow(numbers);
        assert forall|i: int, j: int| 0 <= i < j < all.len() implies *all[i].0 < *all[j].0 by {
            assert(numbers[i] == *all[i].0);
            assert(numbers[j] == *all[j].0);
        }
        assert forall|i: int| 0 <= i < all.len() implies fields@.contains_key(*all[i].0)
            && fields@[*all[i].0] == *all[i].1 by {
            assert(fields@.contains_key(*all[i].0));
            assert(fields@[*all[i].0] == *all[i].1);
        }
    }
    for kv in it: walker
        invariant
            it.seq() == all,
            forall|i: int, j: int| 0 <= i < j < all.len() ==> *all[i].0 < *all[j].0,
            forall|i: int|
                0 <= i < all.len() ==> fields@.contains_key(*all[i].0) && fields@[*all[i].0]
                    == *all[i].1,
            out@.len() == keys.len(),
            forall|i: int|
                0 <= i < keys.len() ==> numbered(fields@).contains_key(#[trigger] keys[i])
                    && out@[i]@ == numbered(fields@)[keys[i]],
            forall|i: int, j: int| 0 <= i < j < keys.len() ==> keys[i] < keys[j],
            places.len() == keys.len(),
            forall|i: int|
                0 <= i < keys.len() ==> 0 <= #[trigger] places[i] < it.index() && keys[i]
                    == *all[places[i]].0,
            forall|x: int|
                0 <= x < it.index() && numbered(fields@).contains_key(*all[x].0 as int)
                    ==> keys.contains(*(#[trigger] all[x]).0 as int),
    {
        let ghost at = it.index();
        let ghost sofar = keys;
        let ghost seen = places;
        assert(kv == all[at]);
        // A field counts under its own number only.
        if *kv.0 == kv.1.number {
            proof {
                assert forall|i: int| 0 <= i < sofar.len() implies sofar[i] < *kv.0 by {
                    let x = seen[i];
                    assert(*all[x].0 < *all[at].0);
                }
                keys = sofar.push(*kv.0 as int);
                places = seen.push(at);
                assert(keys[sofar.len() as int] == *all[at].0);
            }
            out.push(kv.1);
        }
        proof {
            assert forall|i: int| 0 <= i < keys.len() implies 0 <= #[trigger] places[i] < at + 1
                && keys[i] == *all[places[i]].0 by {
                if i < sofar.len() {
                    assert(places[i] == seen[i]);
                    assert(keys[i] == sofar[i]);
                }
            }
            assert forall|x: int|
                0 <= x < at + 1 && numbered(fields@).contains_key(
                    *all[x].0 as int,
                ) implies keys.contains(*(#[trigger] all[x]).0 as int) by {
                if x < at {
                    assert(sofar.contains(*all[x].0 as int));
                    let i = choose|i: int| 0 <= i < sofar.len() && sofar[i] == *all[x].0 as int;
                    assert(keys[i] == *all[x].0 as int);
                } else {
                    assert(keys[sofar.len() as int] == *all[at].0);
                }
            }
        }
    }
    proof {
        let m = numbered(fields@);
        assert forall|k: int| 0 <= k < number_limit() && m.contains_key(k) implies keys.contains(
            k,
        ) by {
            let n = k as u64;
            assert(fields@.contains_key(n));
            assert(all.contains((&n, &fields@[n])));
            let x = choose|x: int| 0 <= x < all.len() && all[x] == (&n, &fields@[n]);
            assert(*all[x].0 as int == k);
        }
        lemma_order_listing(m, 0, number_limit(), keys);
    }
    out
}

/// One more than the greatest value of an enum field.
pub open spec fn value_limit() -> int {
    0x8000_0000_0000_0000
}

/// The enum fields of the map by value, as views.
pub open spec fn valued(m: Map<i64, EnumField>) -> Map<int, EnumFieldView> {
    Map::new(
        |k: int| -value_limit() <= k < value_limit() && m.contains_key(k as i64) && m[k as i64].value == k,
        |k: int| m[k as i64]@,
    )
}

/// The enum fields of the map in ascending order of their values.
pub open spec fn values_in_order(m: Map<i64, EnumField>) -> Seq<EnumFieldView> {
    in_key_order(valued(m), -value_limit(), value_limit())
}

/// The fields with a value from `lo` up to `hi`, `hi` not included.
pub open spec fn values_between(m: Map<i64, EnumField>, lo: int, hi: int) -> Seq<
    EnumFieldView,
> {
    in_key_order(valued(m), lo, hi)
}

/// A map without entries has no fields.
pub proof fn lemma_no_values()
    ensures
        values_in_order(Map::<i64, EnumField>::empty()) == Seq::<EnumFieldView>::empty(),
{
    lemma_order_of_none(
        valued(Map::<i64, EnumField>::empty()),
        -value_limit(),
        value_limit(),
    );
}

/// The fields of a range have values of that range.
pub proof fn lemma_values_between(m: Map<i64, EnumField>, lo: int, hi: int)
    requires
        -value_limit() <= lo,
        hi <= value_limit(),
    ensures
        forall|i: int|
            0 <= i < values_between(m, lo, hi).len() ==> lo <= (#[trigger] values_between(
                m,
                lo,
                hi,
            )[i]).value < hi,
{
    assert forall|i: int| 0 <= i < values_between(m, lo, hi).len() implies lo <= (
    #[trigger] values_between(m, lo, hi)[i]).value < hi by {
        lemma_key_at(valued(m), lo, hi, i);
    }
}

/// The fields stand in strictly ascending order of their values.
pub proof fn lemma_values_ascending(m: Map<i64, EnumField>)
    ensures
        forall|i: int, j: int|
            0 <= i < j < values_in_order(m).len() ==> values_in_order(m)[i].value
                < values_in_order(m)[j].value,
{
    assert forall|i: int, j: int| 0 <= i < j < values_in_order(m).len() implies values_in_order(
        m,
    )[i].value < values_in_order(m)[j].value by {
        lemma_key_at(valued(m), -value_limit(), value_limit(), i);
        lemma_key_at(valued(m), -value_limit(), value_limit(), j);
        lemma_key_at_ascending(valued(m), -value_limit(), value_limit(), i, j);
    }
}

/// The fields are those with a smaller value, the field with the value
/// `n` if there is one, and those with a greater value.
pub proof fn lemma_values_around(m: Map<i64, EnumField>, n: i64)
    ensures
        values_in_order(m) == values_between(m, -value_limit(), n as int) + at_key(valued(m), n as int)
            + values_between(m, n + 1, value_limit()),
        forall|i: int|
            0 <= i < values_between(m, -value_limit(), n as int).len() ==> (
            #[trigger] values_between(m, -value_limit(), n as int)[i]).value < n,
        forall|i: int|
            0 <= i < values_between(m, n + 1, value_limit()).len() ==> (
            #[trigger] values_between(m, n + 1, value_limit())[i]).value > n,
{
    lemma_order_around(valued(m), -value_limit(), n as int, value_limit());
    lemma_values_between(m, -value_limit(), n as int);
    lemma_values_between(m, n + 1, value_limit());
}

/// The enum field with the given value.
pub fn value_in<'a>(fields: &'a BTreeMap<i64, EnumField>, value: i64) -> (r: Option<
    &'a EnumField,
>)
    ensures
        match first_match(values_in_order(fields@), |f: EnumFieldView| f.value == value) {
            Some(i) => r is Some && r.unwrap()@ == values_in_order(fields@)[i],
            None => r is None,
        },
{
    let ghost all = values_in_order(fields@);
    let ghost below = values_between(fields@, -value_limit(), value as int);
    let ghost above = values_between(fields@, value + 1, value_limit());
    let ghost p = |f: EnumFieldView| f.value == value;
    proof {
        lemma_values_around(fields@, value);
    }
    match fields.get(&value) {
        Some(f) => {
            // A field counts under its own value only.
            if f.value == value {
                proof {
                    assert(valued(fields@).contains_key(value as int));
                    assert(all =~= below + seq![f@] + above);
                    assert(all[below.len() as int] == f@);
                    assert forall|j: int| 0 <= j < below.len() implies !p(all[j]) by {
                        assert(all[j] == below[j]);
                    }
                    lemma_first_match_is(all, p, below.len() as int);
                }
                return Some(f);
            }
        },
        None => {},
    }
    proof {
        assert(!valued(fields@).contains_key(value as int));
        assert(all =~= below + above);
        assert forall|j: int| 0 <= j < all.len() implies !p(all[j]) by {
            if j < below.len() {
                assert(all[j] == below[j]);
            } else {
                assert(all[j] == above[j - below.len()]);
            }
        }
        lemma_first_match_none(all, p);
    }
    None
}

/// Puts an enum field into the map under its value, in the place of the
/// field that had the value, if there was one.
pub fn put_value_in(fields: &mut BTreeMap<i64, EnumField>, field: EnumField)
    ensures
        values_in_order(final(fields)@) == put_enum_field(values_in_order(old(fields)@), field@),
{
    let ghost before = fields@;
    let ghost given = field@;
    let value: i64 = field.value;
    fields.insert(value, field);
    proof {
        let after = fields@;
        let n = value as int;
        let all = values_in_order(before);
        let below = values_between(before, -value_limit(), n);
        let above = values_between(before, n + 1, value_limit());
        let p = |g: EnumFieldView| g.value >= given.value;
        lemma_values_around(before, value);
        lemma_values_around(after, value);
        assert forall|k: int| -value_limit() <= k < n implies #[trigger] same_at(
            valued(before),
            valued(after),
            k,
        ) by {}
        assert forall|k: int| n + 1 <= k < value_limit() implies #[trigger] same_at(
            valued(before),
            valued(after),
            k,
        ) by {}
        lemma_order_agrees(valued(before), valued(after), -value_limit(), n);
        lemma_order_agrees(valued(before), valued(after), n + 1, value_limit());
        assert(valued(after).contains_key(n));
        assert(values_in_order(after) =~= below + seq![given] + above);
        assert forall|j: int| 0 <= j < below.len() implies !p(all[j]) by {
            assert(all[j] == below[j]);
        }
        if valued(before).contains_key(n) {
            assert(all =~= below + seq![valued(before)[n]] + above);
            assert(all[below.len() as int].value == value);
            lemma_first_match_is(all, p, below.len() as int);
            assert(all.update(below.len() as int, given) =~= below + seq![given] + above);
        } else if above.len() > 0 {
            assert(all =~= below + above);
            assert(all[below.len() as int] == above[0]);
            lemma_first_match_is(all, p, below.len() as int);
            assert(all.insert(below.len() as int, given) =~= below + seq![given] + above);
        } else {
            assert(all =~= below);
            lemma_first_match_none(all, p);
            assert(all.push(given) =~= below + seq![given] + above);
        }
    }
}

/// Values that a map gives in increasing order grow strictly.
pub proof fn lemma_values_grow(keys: Seq<i64>)
    requires
        increasing_seq(keys),
    ensures
        forall|i: int, j: int| 0 <= i < j < keys.len() ==> keys[i] < keys[j],
{
    axiom_increasing_seq_meaning(keys);
    assert forall|i: int, j: int| 0 <= i < j < keys.len() implies keys[i] < keys[j] by {
        assert(keys[i].cmp_spec(&keys[j]) is Less);
    }
}

/// The enum fields of the map, in ascending order of their values.
pub fn values_of<'a>(fields: &'a BTreeMap<i64, EnumField>) -> (r: Vec<&'a EnumField>)
    ensures
        r@.len() == values_in_order(fields@).len(),
        forall|i: int| 0 <= i < r@.len() ==> r@[i]@ == values_in_order(fields@)[i],
{
    let mut out: Vec<&EnumField> = Vec::new();
    let ghost mut keys: Seq<int> = Seq::empty();
    let ghost mut places: Seq<int> = Seq::empty();
    let walker = fields.iter();
    let ghost all = walker.remaining();
    proof {
        let values = all.map_values(|kv: (&i64, &EnumField)| *kv.0);
        lemma_values_grow(values);
        assert forall|i: int, j: int| 0 <= i < j < all.len() implies *all[i].0 < *all[j].0 by {
            assert(values[i] == *all[i].0);
            assert(values[j] == *all[j].0);
        }
        assert forall|i: int| 0 <= i < all.len() implies fields@.contains_key(*all[i].0)
            && fields@[*all[i].0] == *all[i].1 by {
            assert(fields@.contains_key(*all[i].0));
            assert(fields@[*all[i].0] == *all[i].1);
        }
    }
    for kv in it: walker
        invariant
            it.seq() == all,
            forall|i: int, j: int| 0 <= i < j < all.len() ==> *all[i].0 < *all[j].0,
            forall|i: int|
                0 <= i < all.len() ==> fields@.contains_key(*all[i].0) && fields@[*all[i].0]
                    == *all[i].1,
            out@.len() == keys.len(),
            forall|i: int|
                0 <= i < keys.len() ==> valued(fields@).contains_key(#[trigger] keys[i])
                    && out@[i]@ == valued(fields@)[keys[i]],
            forall|i: int, j: int| 0 <= i < j < keys.len() ==> keys[i] < keys[j],
            places.len() == keys.len(),
            forall|i: int|
                0 <= i < keys.len() ==> 0 <= #[trigger] places[i] < it.index() && keys[i]
                    == *all[places[i]].0,
            forall|x: int|
                0 <= x < it.index() && valued(fields@).contains_key(*all[x].0 as int)
                    ==> keys.contains(*(#[trigger] all[x]).0 as int),
    {
        let ghost at = it.index();
        let ghost sofar = keys;
        let ghost seen = places;
        assert(kv == all[at]);
        // A field counts under its own value only.
        if *kv.0 == kv.1.value {
            proof {
                assert forall|i: int| 0 <= i < sofar.len() implies sofar[i] < *kv.0 by {
                    let x = seen[i];
                    assert(*all[x].0 < *all[at].0);
                }
                keys = sofar.push(*kv.0 as int);
                places = seen.push(at);
                assert(keys[sofar.len() as int] == *all[at].0);
            }
            out.push(kv.1);
        }
        proof {
            assert forall|i: int| 0 <= i < keys.len() implies 0 <= #[trigger] places[i] < at + 1
                && keys[i] == *all[places[i]].0 by {
                if i < sofar.len() {
                    assert(places[i] == seen[i]);
                    assert(keys[i] == sofar[i]);
                }
            }
            assert forall|x: int|
                0 <= x < at + 1 && valued(fields@).contains_key(
                    *all[x].0 as int,
                ) implies keys.contains(*(#[trigger] all[x]).0 as int) by {
                if x < at {
                    assert(sofar.contains(*all[x].0 as int));
                    let i = choose|i: int| 0 <= i < sofar.len() && sofar[i] == *all[x].0 as int;
                    assert(keys[i] == *all[x].0 as int);
                } else {
                    assert(keys[sofar.len() as int] == *all[at].0);
                }
            }
        }
    }
    proof {
        let m = valued(fields@);
        assert forall|k: int| -value_limit() <= k < value_limit() && m.contains_key(k) implies keys.contains(
            k,
        ) by {
            let n = k as i64;
            assert(fields@.contains_key(n));
            assert(all.contains((&n, &fields@[n])));
            let x = choose|x: int| 0 <= x < all.len() && all[x] == (&n, &fields@[n]);
            assert(*all[x].0 as int == k);
        }
        lemma_order_listing(m, -value_limit(), value_limit(), keys);
    }
    out
}

} // verus!
