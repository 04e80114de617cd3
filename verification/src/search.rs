//! Searching a sequence for the first or the last element with a property.

use vstd::prelude::*;

verus! {

/// The least index whose element satisfies `p`.
pub open spec fn first_match<T>(s: Seq<T>, p: spec_fn(T) -> bool) -> Option<int>
    decreases s.len(),
{
    if s.len() == 0 {
        None
    } else if p(s[0]) {
        Some(0)
    } else {
        match first_match(s.skip(1), p) {
            Some(i) => Some(i + 1),
            None => None,
        }
    }
}

/// The greatest index whose element satisfies `p`.
pub open spec fn last_match<T>(s: Seq<T>, p: spec_fn(T) -> bool) -> Option<int>
    decreases s.len(),
{
    if s.len() == 0 {
        None
    } else if p(s.last()) {
        Some(s.len() - 1)
    } else {
        last_match(s.drop_last(), p)
    }
}

/// What [`first_match`] returns: an index of a matching element with no
/// matching element before it, or nothing where no element matches.
pub proof fn lemma_first_match<T>(s: Seq<T>, p: spec_fn(T) -> bool)
    ensures
        match first_match(s, p) {
            Some(i) => 0 <= i < s.len() && p(s[i]) && forall|j: int| 0 <= j < i ==> !p(s[j]),
            None => forall|j: int| 0 <= j < s.len() ==> !p(s[j]),
        },
    decreases s.len(),
{
    if s.len() > 0 && !p(s[0]) {
        let r = s.skip(1);
        lemma_first_match(r, p);
        match first_match(r, p) {
            Some(i) => {
                assert forall|j: int| 0 <= j < i + 1 implies !p(s[j]) by {
                    if j > 0 {
                        assert(s[j] == r[j - 1]);
                    }
                }
            },
            None => {
                assert forall|j: int| 0 <= j < s.len() implies !p(s[j]) by {
                    if j > 0 {
                        assert(s[j] == r[j - 1]);
                    }
                }
            },
        }
    }
}

/// An index is the first match if its element matches and none before it
/// does.
pub proof fn lemma_first_match_is<T>(s: Seq<T>, p: spec_fn(T) -> bool, i: int)
    requires
        0 <= i < s.len(),
        p(s[i]),
        forall|j: int| 0 <= j < i ==> !p(s[j]),
    ensures
        first_match(s, p) == Some(i),
{
    lemma_first_match(s, p);
}

/// There is no first match where no element matches.
pub proof fn lemma_first_match_none<T>(s: Seq<T>, p: spec_fn(T) -> bool)
    requires
        forall|j: int| 0 <= j < s.len() ==> !p(s[j]),
    ensures
        first_match(s, p) is None,
{
    lemma_first_match(s, p);
}

/// What [`last_match`] returns: an index of a matching element with no
/// matching element after it, or nothing where no element matches.
pub proof fn lemma_last_match<T>(s: Seq<T>, p: spec_fn(T) -> bool)
    ensures
        match last_match(s, p) {
            Some(i) => 0 <= i < s.len() && p(s[i]) && forall|j: int|
                i < j < s.len() ==> !p(s[j]),
            None => forall|j: int| 0 <= j < s.len() ==> !p(s[j]),
        },
    decreases s.len(),
{
    if s.len() > 0 && !p(s.last()) {
        let r = s.drop_last();
        lemma_last_match(r, p);
        match last_match(r, p) {
            Some(i) => {
                assert(s[i] == r[i]);
                assert forall|j: int| i < j < s.len() implies !p(s[j]) by {
                    if j < s.len() - 1 {
                        assert(s[j] == r[j]);
                    }
                }
            },
            None => {
                assert forall|j: int| 0 <= j < s.len() implies !p(s[j]) by {
                    if j < s.len() - 1 {
                        assert(s[j] == r[j]);
                    }
                }
            },
        }
    }
}

/// An index is the last match if its element matches and none after it does.
pub proof fn lemma_last_match_is<T>(s: Seq<T>, p: spec_fn(T) -> bool, i: int)
    requires
        0 <= i < s.len(),
        p(s[i]),
        forall|j: int| i < j < s.len() ==> !p(s[j]),
    ensures
        last_match(s, p) == Some(i),
{
    lemma_last_match(s, p);
}

/// There is no last match where no element matches.
pub proof fn lemma_last_match_none<T>(s: Seq<T>, p: spec_fn(T) -> bool)
    requires
        forall|j: int| 0 <= j < s.len() ==> !p(s[j]),
    ensures
        last_match(s, p) is None,
{
    lemma_last_match(s, p);
}

/// A first match stays the first match where the sequence is extended.
pub proof fn lemma_first_match_extended<T>(s: Seq<T>, t: Seq<T>, p: spec_fn(T) -> bool)
    requires
        first_match(s, p) is Some,
        s.len() <= t.len(),
        t.take(s.len() as int) == s,
    ensures
        first_match(t, p) == first_match(s, p),
{
    lemma_first_match(s, p);
    lemma_first_match(t, p);
    let i = first_match(s, p)->Some_0;
    assert(forall|j: int| 0 <= j < s.len() ==> t[j] == t.take(s.len() as int)[j]);
    assert(p(t[i]));
    match first_match(t, p) {
        Some(k) => {
            if k < i {
                assert(t[k] == s[k]);
            }
        },
        None => {},
    }
}

} // verus!
