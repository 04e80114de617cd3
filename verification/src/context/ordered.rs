//! The values of a map with integer keys, in ascending order of the keys.
//!
//! A map that is walked in the order of its keys gives a sequence. This
//! module says which sequence, and what a change to the map does to it.

use vstd::prelude::*;

verus! {

/// The values under the keys from `lo` up to `hi`, `hi` not included, in
/// ascending order of the keys.
pub open spec fn in_key_order<V>(m: Map<int, V>, lo: int, hi: int) -> Seq<V>
    decreases hi - lo,
{
    if hi <= lo {
        Seq::empty()
    } else if m.contains_key(hi - 1) {
        in_key_order(m, lo, hi - 1).push(m[hi - 1])
    } else {
        in_key_order(m, lo, hi - 1)
    }
}

/// What stands under the key `k`, as a sequence of one value or of none.
pub open spec fn at_key<V>(m: Map<int, V>, k: int) -> Seq<V> {
    if m.contains_key(k) {
        seq![m[k]]
    } else {
        Seq::empty()
    }
}

/// The maps `a` and `b` hold the same under the key `k`, or both nothing.
pub open spec fn same_at<V>(a: Map<int, V>, b: Map<int, V>, k: int) -> bool {
    &&& a.contains_key(k) <==> b.contains_key(k)
    &&& a.contains_key(k) ==> a[k] == b[k]
}

/// Two maps that agree on a range of keys give the same sequence there.
pub proof fn lemma_order_agrees<V>(a: Map<int, V>, b: Map<int, V>, lo: int, hi: int)
    requires
        forall|k: int| lo <= k < hi ==> #[trigger] same_at(a, b, k),
    ensures
        in_key_order(a, lo, hi) == in_key_order(b, lo, hi),
    decreases hi - lo,
{
    if hi > lo {
        lemma_order_agrees(a, b, lo, hi - 1);
        assert(same_at(a, b, hi - 1));
    }
}

/// A range without keys gives the empty sequence.
pub proof fn lemma_order_of_none<V>(m: Map<int, V>, lo: int, hi: int)
    requires
        forall|k: int| lo <= k < hi ==> !m.contains_key(k),
    ensures
        in_key_order(m, lo, hi) == Seq::<V>::empty(),
    decreases hi - lo,
{
    if hi > lo {
        lemma_order_of_none(m, lo, hi - 1);
    }
}

/// The sequence of a range is that of its lower part followed by that of
/// its upper part.
pub proof fn lemma_order_split<V>(m: Map<int, V>, lo: int, mid: int, hi: int)
    requires
        lo <= mid <= hi,
    ensures
        in_key_order(m, lo, hi) == in_key_order(m, lo, mid) + in_key_order(m, mid, hi),
    decreases hi - mid,
{
    let lower = in_key_order(m, lo, mid);
    if hi == mid {
        assert(lower + Seq::<V>::empty() =~= lower);
    } else {
        lemma_order_split(m, lo, mid, hi - 1);
        let upper = in_key_order(m, mid, hi - 1);
        if m.contains_key(hi - 1) {
            assert((lower + upper).push(m[hi - 1]) =~= lower + upper.push(m[hi - 1]));
        }
    }
}

/// The sequence of a range is what lies below a key, what stands under
/// it, and what lies above it.
pub proof fn lemma_order_around<V>(m: Map<int, V>, lo: int, k: int, hi: int)
    requires
        lo <= k < hi,
    ensures
        in_key_order(m, lo, hi) == in_key_order(m, lo, k) + at_key(m, k) + in_key_order(
            m,
            k + 1,
            hi,
        ),
{
    lemma_order_split(m, lo, k, hi);
    lemma_order_split(m, k, k + 1, hi);
    assert(in_key_order(m, k, k) =~= Seq::<V>::empty());
    assert(in_key_order(m, k, k + 1) =~= at_key(m, k));
    assert(in_key_order(m, lo, k) + (at_key(m, k) + in_key_order(m, k + 1, hi)) =~= in_key_order(
        m,
        lo,
        k,
    ) + at_key(m, k) + in_key_order(m, k + 1, hi));
}

/// The key under which the value at position `i` of the sequence stands.
pub open spec fn key_at<V>(m: Map<int, V>, lo: int, hi: int, i: int) -> int
    decreases hi - lo,
{
    if hi <= lo {
        lo
    } else if m.contains_key(hi - 1) && i == in_key_order(m, lo, hi - 1).len() {
        hi - 1
    } else {
        key_at(m, lo, hi - 1, i)
    }
}

/// Every value of the sequence stands in the map under a key of the range.
pub proof fn lemma_key_at<V>(m: Map<int, V>, lo: int, hi: int, i: int)
    requires
        0 <= i < in_key_order(m, lo, hi).len(),
    ensures
        lo <= key_at(m, lo, hi, i) < hi,
        m.contains_key(key_at(m, lo, hi, i)),
        in_key_order(m, lo, hi)[i] == m[key_at(m, lo, hi, i)],
    decreases hi - lo,
{
    if hi > lo {
        if m.contains_key(hi - 1) && i == in_key_order(m, lo, hi - 1).len() {
        } else {
            lemma_key_at(m, lo, hi - 1, i);
        }
    }
}

/// The values of the sequence stand under keys in strictly ascending
/// order.
pub proof fn lemma_key_at_ascending<V>(m: Map<int, V>, lo: int, hi: int, i: int, j: int)
    requires
        0 <= i < j < in_key_order(m, lo, hi).len(),
    ensures
        key_at(m, lo, hi, i) < key_at(m, lo, hi, j),
    decreases hi - lo,
{
    if hi > lo {
        if m.contains_key(hi - 1) && j == in_key_order(m, lo, hi - 1).len() {
            lemma_key_at(m, lo, hi - 1, i);
        } else {
            lemma_key_at_ascending(m, lo, hi - 1, i, j);
        }
    }
}

/// A list of the keys of a range, in strictly ascending order and with none
/// left out, gives the sequence of the range.
pub proof fn lemma_order_listing<V>(m: Map<int, V>, lo: int, hi: int, keys: Seq<int>)
    requires
        lo <= hi,
        forall|i: int, j: int| 0 <= i < j < keys.len() ==> keys[i] < keys[j],
        forall|i: int| 0 <= i < keys.len() ==> lo <= keys[i] < hi && m.contains_key(keys[i]),
        forall|k: int| lo <= k < hi && m.contains_key(k) ==> keys.contains(k),
    ensures
        in_key_order(m, lo, hi).len() == keys.len(),
        forall|i: int| 0 <= i < keys.len() ==> in_key_order(m, lo, hi)[i] == m[keys[i]],
    decreases keys.len(),
{
    if keys.len() == 0 {
        assert forall|k: int| lo <= k < hi implies !m.contains_key(k) by {
            if m.contains_key(k) {
                assert(keys.contains(k));
            }
        }
        lemma_order_of_none(m, lo, hi);
    } else {
        let first = keys[0];
        let rest = keys.skip(1);
        lemma_order_around(m, lo, first, hi);
        assert forall|k: int| lo <= k < first implies !m.contains_key(k) by {
            if m.contains_key(k) {
                assert(keys.contains(k));
                let i = choose|i: int| 0 <= i < keys.len() && keys[i] == k;
                assert(i == 0 || keys[0] < keys[i]);
            }
        }
        lemma_order_of_none(m, lo, first);
        assert forall|k: int| first + 1 <= k < hi && m.contains_key(k) implies rest.contains(
            k,
        ) by {
            assert(keys.contains(k));
            let i = choose|i: int| 0 <= i < keys.len() && keys[i] == k;
            assert(rest[i - 1] == k);
        }
        assert forall|i: int| 0 <= i < rest.len() implies first + 1 <= rest[i] < hi
            && m.contains_key(rest[i]) by {
            assert(rest[i] == keys[i + 1]);
            assert(keys[0] < keys[i + 1]);
        }
        assert forall|i: int, j: int| 0 <= i < j < rest.len() implies rest[i] < rest[j] by {
            assert(keys[i + 1] < keys[j + 1]);
        }
        lemma_order_listing(m, first + 1, hi, rest);
        let above = in_key_order(m, first + 1, hi);
        assert(in_key_order(m, lo, hi) =~= seq![m[first]] + above);
        assert forall|i: int| 0 <= i < keys.len() implies in_key_order(m, lo, hi)[i]
            == m[keys[i]] by {
            if i > 0 {
                assert(above[i - 1] == m[rest[i - 1]]);
            }
        }
    }
}

} // verus!
