//! Operations on text: reading bytes as text, comparing names, joining them
//! with a dot, and the enclosing scope of a dotted path.

use vstd::prelude::*;
use vstd::string::{StringExecFns, StringSliceAdditionalSpecFns, StrSliceExecFns};

verus! {

/// What `String::from_utf8_lossy` makes of bytes that are not valid UTF-8:
/// the text with each invalid sequence replaced by U+FFFD.
pub uninterp spec fn utf8_replaced(bytes: Seq<u8>) -> Seq<char>;

/// The text that a byte string is read as: the characters that the bytes
/// encode where they are valid UTF-8, and a repaired text where they are not.
pub open spec fn lossy_text(bytes: Seq<u8>) -> Seq<char> {
    if vstd::utf8::valid_utf8(bytes) {
        vstd::utf8::decode_utf8(bytes)
    } else {
        utf8_replaced(bytes)
    }
}

/// `String::from_utf8_lossy`, made into an owned string. Valid UTF-8 comes
/// out as the text it encodes; anything else comes out repaired, which is
/// given a name and not described further. This is assumed, not proved.
#[verifier::external_body]
pub(crate) fn lossy_string(data: &[u8]) -> (r: String)
    ensures
        r@ == (if vstd::utf8::valid_utf8(data@) {
            vstd::utf8::decode_utf8(data@)
        } else {
            utf8_replaced(data@)
        }),
{
    String::from_utf8_lossy(data).into_owned()
}

/// `scope.name`, or `name` alone in the root scope.
pub open spec fn qualified(scope: Seq<char>, name: Seq<char>) -> Seq<char> {
    if scope.len() == 0 {
        name
    } else {
        scope + seq!['.'] + name
    }
}

/// The position of the last dot among the first `upto` characters of `path`.
pub open spec fn last_dot(path: Seq<char>, upto: int) -> Option<int>
    decreases upto,
{
    if upto <= 0 {
        None
    } else if path[upto - 1] == '.' {
        Some(upto - 1)
    } else {
        last_dot(path, upto - 1)
    }
}

/// The scope that encloses `path`: what stands before its last dot, or the
/// root scope where it has none.
pub open spec fn enclosing_scope(path: Seq<char>) -> Seq<char> {
    match last_dot(path, path.len() as int) {
        Some(i) => path.take(i),
        None => Seq::<char>::empty(),
    }
}

pub proof fn lemma_last_dot_bounds(path: Seq<char>, upto: int)
    requires
        upto <= path.len(),
    ensures
        match last_dot(path, upto) {
            Some(i) => 0 <= i < upto && path[i] == '.',
            None => true,
        },
    decreases upto,
{
    if upto > 0 && path[upto - 1] != '.' {
        lemma_last_dot_bounds(path, upto - 1);
    }
}

/// The enclosing scope of a non-empty path is strictly shorter.
pub proof fn lemma_enclosing_scope_shorter(path: Seq<char>)
    requires
        path.len() > 0,
    ensures
        enclosing_scope(path).len() < path.len(),
{
    lemma_last_dot_bounds(path, path.len() as int);
}

/// Whether two strings hold the same characters.
pub fn same_text(a: &str, b: &str) -> (r: bool)
    ensures
        r == (a@ == b@),
{
    let x = a.as_bytes();
    let y = b.as_bytes();
    proof {
        vstd::utf8::encode_utf8_decode_utf8(a@);
        vstd::utf8::encode_utf8_decode_utf8(b@);
    }
    if x.len() != y.len() {
        return false;
    }
    let mut i: usize = 0;
    while i < x.len()
        invariant
            i <= x.len(),
            x.len() == y.len(),
            x@ == a.spec_bytes(),
            y@ == b.spec_bytes(),
            forall|j: int| 0 <= j < i ==> x@[j] == y@[j],
        decreases x.len() - i,
    {
        if x[i] != y[i] {
            return false;
        }
        i += 1;
    }
    assert(x@ =~= y@);
    true
}

/// `scope`, a dot, and `name`.
pub fn dotted(scope: &str, name: &str) -> (r: String)
    ensures
        r@ == scope@ + seq!['.'] + name@,
{
    proof {
        reveal_strlit(".");
    }
    let r = scope.to_owned().concat(".").concat(name);
    assert("."@ =~= seq!['.']);
    r
}

/// `scope.name`, or a copy of `name` where `scope` is empty.
pub fn join_path(scope: &str, name: &str) -> (r: String)
    ensures
        r@ == qualified(scope@, name@),
{
    if scope.unicode_len() == 0 {
        name.to_owned()
    } else {
        dotted(scope, name)
    }
}

/// Whether two optional names are the same.
pub fn same_name(a: &Option<String>, b: &Option<String>) -> (r: bool)
    ensures
        r == (option_text(*a) == option_text(*b)),
{
    match (a, b) {
        (Some(x), Some(y)) => same_text(x.as_str(), y.as_str()),
        (None, None) => true,
        _ => false,
    }
}

/// The characters of an optional name.
pub open spec fn option_text(name: Option<String>) -> Option<Seq<char>> {
    match name {
        Some(n) => Some(n@),
        None => None,
    }
}

/// The enclosing scope of `path` as a slice of it.
pub fn parent_scope(path: &str) -> (r: &str)
    ensures
        r@ == enclosing_scope(path@),
{
    let mut i: usize = path.unicode_len();
    while i > 0
        invariant
            i <= path@.len(),
            last_dot(path@, path@.len() as int) == last_dot(path@, i as int),
        decreases i,
    {
        if path.get_char(i - 1) == '.' {
            let r = path.substring_char(0, i - 1);
            assert(r@ =~= path@.take(i - 1));
            return r;
        }
        i -= 1;
    }
    let r = path.substring_char(0, 0);
    assert(r@ =~= Seq::<char>::empty());
    r
}

} // verus!
