//! Integer encodings of the protocol buffer wire format: base-128 varints,
//! zig-zag signed integers, two's-complement reinterpretation and
//! little-endian fixed-width values.
//!
//! Every encoding is given as a function on mathematical integers and byte
//! sequences; the executable readers and writers are proved against those.

use vstd::prelude::*;

verus! {

/// Two to the power 32.
pub open spec fn two_32() -> int {
    0x1_0000_0000
}

/// Two to the power 64.
pub open spec fn two_64() -> int {
    0x1_0000_0000_0000_0000
}

/// `128^n`: the weight of the `n`-th seven-bit group of a varint.
pub open spec fn group_weight(n: nat) -> nat
    decreases n,
{
    if n == 0 {
        1
    } else {
        128 * group_weight((n - 1) as nat)
    }
}

/// The canonical varint of `n`: seven payload bits per byte, least
/// significant group first, the high bit set on every byte but the last.
pub open spec fn varint_encoding(n: nat) -> Seq<u8>
    decreases n,
{
    if n < 128 {
        seq![n as u8]
    } else {
        seq![(n % 128 + 128) as u8] + varint_encoding(n / 128)
    }
}

/// Reads one varint from the front of `s`. The result is the value and the
/// number of bytes it occupies, up to and including the first byte whose high
/// bit is clear; `None` when no such byte exists.
pub open spec fn parse_varint(s: Seq<u8>) -> Option<(nat, nat)>
    decreases s.len(),
{
    if s.len() == 0 {
        None
    } else if s[0] < 128 {
        Some((s[0] as nat, 1nat))
    } else {
        match parse_varint(s.skip(1)) {
            Some((v, n)) => Some((((s[0] - 128) + 128 * v) as nat, n + 1)),
            None => None,
        }
    }
}

/// The value of the varint at the front of `s`; zero where there is none.
pub open spec fn varint_value(s: Seq<u8>) -> nat {
    match parse_varint(s) {
        Some((v, _)) => v,
        None => 0,
    }
}

/// The length of the varint at the front of `s`; zero where there is none.
pub open spec fn varint_len(s: Seq<u8>) -> nat {
    match parse_varint(s) {
        Some((_, n)) => n,
        None => 0,
    }
}

/// A varint as the decoder accepts it: at most ten bytes long and with a
/// value that fits in 64 bits.
pub open spec fn parse_varint_u64(s: Seq<u8>) -> Option<(u64, nat)> {
    match parse_varint(s) {
        Some((v, n)) => if n <= 10 && v < two_64() {
            Some((v as u64, n))
        } else {
            None
        },
        None => None,
    }
}

/// The varint at the front of `s` is written in the shortest form: its last
/// byte is not a padding group of zero bits.
pub open spec fn minimal_varint(s: Seq<u8>) -> bool {
    match parse_varint(s) {
        Some((_, n)) => n == 1 || s[n - 1] != 0,
        None => false,
    }
}

/// The signed number that a 64-bit pattern stands for in two's complement.
pub open spec fn signed_64(u: int) -> int {
    if u < 0x8000_0000_0000_0000 {
        u
    } else {
        u - two_64()
    }
}

/// The 64-bit pattern of a signed number in two's complement.
pub open spec fn unsigned_64(v: int) -> int {
    if v >= 0 {
        v
    } else {
        v + two_64()
    }
}

/// The signed number that a 32-bit pattern stands for in two's complement.
pub open spec fn signed_32(u: int) -> int {
    if u < 0x8000_0000 {
        u
    } else {
        u - two_32()
    }
}

/// The 32-bit pattern of a signed number in two's complement.
pub open spec fn unsigned_32(v: int) -> int {
    if v >= 0 {
        v
    } else {
        v + two_32()
    }
}

/// Zig-zag decoding: even numbers are the non-negative values, odd numbers
/// the negative ones, so that `0, 1, 2, 3, 4` stand for `0, -1, 1, -2, 2`.
pub open spec fn zigzag_decode(u: int) -> int {
    if u % 2 == 0 {
        u / 2
    } else {
        -(u / 2) - 1
    }
}

/// Zig-zag encoding, the inverse of [`zigzag_decode`].
pub open spec fn zigzag_encode(v: int) -> int {
    if v >= 0 {
        2 * v
    } else {
        -2 * v - 1
    }
}

/// The number that the bytes of `s` spell in little-endian order.
pub open spec fn le_value(s: Seq<u8>) -> nat
    decreases s.len(),
{
    if s.len() == 0 {
        0
    } else {
        (s[0] + 256 * le_value(s.skip(1))) as nat
    }
}

/// The `width` low-order bytes of `v`, least significant first.
pub open spec fn le_bytes(v: nat, width: nat) -> Seq<u8>
    decreases width,
{
    if width == 0 {
        Seq::<u8>::empty()
    } else {
        seq![(v % 256) as u8] + le_bytes(v / 256, (width - 1) as nat)
    }
}

/// `256^n`.
pub open spec fn byte_weight(n: nat) -> nat
    decreases n,
{
    if n == 0 {
        1
    } else {
        256 * byte_weight((n - 1) as nat)
    }
}

pub proof fn lemma_group_weight_values()
    ensures
        group_weight(0) == 1,
        group_weight(1) == 0x80,
        group_weight(2) == 0x4000,
        group_weight(3) == 0x20_0000,
        group_weight(4) == 0x1000_0000,
        group_weight(5) == 0x8_0000_0000,
        group_weight(6) == 0x400_0000_0000,
        group_weight(7) == 0x2_0000_0000_0000,
        group_weight(8) == 0x100_0000_0000_0000,
        group_weight(9) == 0x8000_0000_0000_0000,
        group_weight(10) == 0x40_0000_0000_0000_0000,
{
    reveal_with_fuel(group_weight, 12);
}

pub proof fn lemma_byte_weight_values()
    ensures
        byte_weight(0) == 1,
        byte_weight(4) == 0x1_0000_0000,
        byte_weight(8) == 0x1_0000_0000_0000_0000,
{
    reveal_with_fuel(byte_weight, 10);
}

/// A parsed varint uses at least one byte, no more than there are, and its
/// value is below the weight of the first unused group.
pub proof fn lemma_parse_varint_bounds(s: Seq<u8>)
    ensures
        match parse_varint(s) {
            Some((v, n)) => 1 <= n <= s.len() && v < group_weight(n) && s[n - 1] < 128,
            None => true,
        },
    decreases s.len(),
{
    reveal_with_fuel(group_weight, 2);
    if s.len() > 0 && s[0] >= 128 {
        lemma_parse_varint_bounds(s.skip(1));
        match parse_varint(s.skip(1)) {
            Some((v, n)) => {
                assert(s.skip(1)[n - 1] == s[n as int]);
                assert(group_weight(n + 1) == 128 * group_weight(n));
            },
            None => {},
        }
    }
}

/// Reading a varint looks only at the bytes it occupies.
pub proof fn lemma_parse_varint_prefix(s: Seq<u8>, t: Seq<u8>)
    requires
        parse_varint(s) is Some,
        t.len() >= varint_len(s),
        t.take(varint_len(s) as int) == s.take(varint_len(s) as int),
    ensures
        parse_varint(t) == parse_varint(s),
    decreases s.len(),
{
    lemma_parse_varint_bounds(s);
    let n = varint_len(s);
    assert(t[0] == t.take(n as int)[0]);
    assert(s[0] == s.take(n as int)[0]);
    if s[0] >= 128 {
        let m = varint_len(s.skip(1));
        assert(t.skip(1).take(m as int) =~= t.take(n as int).skip(1));
        assert(s.skip(1).take(m as int) =~= s.take(n as int).skip(1));
        lemma_parse_varint_prefix(s.skip(1), t.skip(1));
    }
}

/// The canonical encoding ends in a byte without the high bit, and that byte
/// is zero only for the number zero.
pub proof fn lemma_varint_encoding_shape(n: nat)
    ensures
        varint_encoding(n).len() >= 1,
        varint_encoding(n).last() < 128,
        varint_encoding(n).len() > 1 ==> varint_encoding(n).last() != 0,
        forall|i: int| 0 <= i < varint_encoding(n).len() - 1 ==> varint_encoding(n)[i] >= 128,
    decreases n,
{
    if n >= 128 {
        lemma_varint_encoding_shape(n / 128);
        let rest = varint_encoding(n / 128);
        let all = varint_encoding(n);
        assert(all =~= seq![(n % 128 + 128) as u8] + rest);
        assert(all.last() == rest.last());
        assert forall|i: int| 0 <= i < all.len() - 1 implies all[i] >= 128 by {
            if i > 0 {
                assert(all[i] == rest[i - 1]);
            }
        }
        if rest.len() == 1 {
            assert(rest =~= seq![(n / 128) as u8]);
        }
    }
}

/// Parsing what was encoded gives the number back, whatever follows it.
pub proof fn lemma_parse_of_encoding(n: nat, tail: Seq<u8>)
    ensures
        parse_varint(varint_encoding(n) + tail) == Some((n, varint_encoding(n).len())),
    decreases n,
{
    let s = varint_encoding(n) + tail;
    if n < 128 {
        assert(s[0] == n as u8);
    } else {
        let rest = varint_encoding(n / 128);
        assert(s[0] == (n % 128 + 128) as u8);
        assert(s.skip(1) =~= rest + tail);
        lemma_parse_of_encoding(n / 128, tail);
    }
}

/// A varint in shortest form is the canonical encoding of its value.
pub proof fn lemma_minimal_varint_is_encoding(s: Seq<u8>)
    requires
        minimal_varint(s),
    ensures
        varint_encoding(varint_value(s)) == s.take(varint_len(s) as int),
    decreases s.len(),
{
    let v = varint_value(s);
    let n = varint_len(s);
    lemma_parse_varint_bounds(s);
    if s[0] < 128 {
        assert(s.take(1) =~= seq![s[0]]);
    } else {
        let r = s.skip(1);
        let w = varint_value(r);
        let m = varint_len(r);
        lemma_parse_varint_bounds(r);
        assert(r[m - 1] == s[n - 1]);
        if m == 1 {
            assert(w == r[0]);
            assert(w != 0);
        }
        lemma_minimal_varint_instance(r);
        lemma_minimal_varint_is_encoding(r);
        assert(v == (s[0] - 128) + 128 * w);
        assert(w >= 1) by {
            if m > 1 {
                lemma_minimal_varint_positive(r);
            }
        }
        assert(v >= 128);
        assert(v / 128 == w && v % 128 == s[0] - 128);
        assert(s.take(n as int) =~= seq![s[0]] + r.take(m as int));
    }
}

proof fn lemma_minimal_varint_instance(r: Seq<u8>)
    requires
        parse_varint(r) is Some,
        varint_len(r) == 1 || r[varint_len(r) - 1] != 0,
    ensures
        minimal_varint(r),
{
}

/// A varint of two or more bytes in shortest form is at least 128.
pub proof fn lemma_minimal_varint_positive(s: Seq<u8>)
    requires
        minimal_varint(s),
        varint_len(s) > 1,
    ensures
        varint_value(s) >= 128,
    decreases s.len(),
{
    lemma_parse_varint_bounds(s);
    let r = s.skip(1);
    let n = varint_len(s);
    let m = varint_len(r);
    lemma_parse_varint_bounds(r);
    assert(r[m - 1] == s[n - 1]);
    if m > 1 {
        lemma_minimal_varint_positive(r);
    } else {
        assert(varint_value(r) == r[0]);
    }
}

/// The canonical encoding of a number is in shortest form.
pub proof fn lemma_encoding_is_minimal(n: nat, tail: Seq<u8>)
    ensures
        minimal_varint(varint_encoding(n) + tail),
{
    lemma_parse_of_encoding(n, tail);
    lemma_varint_encoding_shape(n);
    let e = varint_encoding(n);
    assert((e + tail)[e.len() - 1] == e.last());
}

/// A number below `128^k` has a canonical encoding of at most `k` bytes.
pub proof fn lemma_varint_encoding_len(n: nat, k: nat)
    requires
        k >= 1,
        n < group_weight(k),
    ensures
        varint_encoding(n).len() <= k,
    decreases k,
{
    if n >= 128 {
        assert(group_weight(k) == 128 * group_weight((k - 1) as nat));
        if k == 1 {
            assert(group_weight(0) == 1);
        } else {
            lemma_varint_encoding_len(n / 128, (k - 1) as nat);
        }
    }
}

pub proof fn lemma_le_value_bound(s: Seq<u8>)
    ensures
        le_value(s) < byte_weight(s.len()),
    decreases s.len(),
{
    if s.len() > 0 {
        lemma_le_value_bound(s.skip(1));
        assert(byte_weight(s.len()) == 256 * byte_weight((s.len() - 1) as nat));
    }
}

pub proof fn lemma_le_bytes_len(v: nat, width: nat)
    ensures
        le_bytes(v, width).len() == width,
    decreases width,
{
    if width > 0 {
        lemma_le_bytes_len(v / 256, (width - 1) as nat);
    }
}

/// Writing the value of a byte string in its own width gives it back.
pub proof fn lemma_le_bytes_of_value(s: Seq<u8>)
    ensures
        le_bytes(le_value(s), s.len()) == s,
    decreases s.len(),
{
    if s.len() == 0 {
        assert(le_bytes(0, 0) =~= s);
    } else {
        let r = s.skip(1);
        lemma_le_bytes_of_value(r);
        let v = le_value(s);
        assert(v == s[0] + 256 * le_value(r));
        assert(v % 256 == s[0] && v / 256 == le_value(r));
        assert(s =~= seq![s[0]] + r);
    }
}

/// Reading back the `width` bytes of a value that fits in them gives it back.
pub proof fn lemma_le_value_of_bytes(v: nat, width: nat)
    requires
        v < byte_weight(width),
    ensures
        le_value(le_bytes(v, width)) == v,
    decreases width,
{
    if width == 0 {
        assert(byte_weight(0) == 1);
    } else {
        assert(byte_weight(width) == 256 * byte_weight((width - 1) as nat));
        lemma_le_value_of_bytes(v / 256, (width - 1) as nat);
        let s = le_bytes(v, width);
        assert(s.skip(1) =~= le_bytes(v / 256, (width - 1) as nat));
        assert(s[0] == (v % 256) as u8);
    }
}

/// Reads the varint at the front of `data`, looking at no more than `budget`
/// bytes.
fn read_groups(data: &[u8], budget: usize) -> (r: Option<(u128, usize)>)
    requires
        budget <= 10,
    ensures
        r == match parse_varint(data@) {
            Some((v, n)) => if n <= budget {
                Some((v as u128, n as usize))
            } else {
                None
            },
            None => None,
        },
        r is Some ==> r.unwrap().0 < group_weight(r.unwrap().1 as nat) && 1 <= r.unwrap().1 <= data@.len(),
    decreases budget,
{
    proof {
        lemma_parse_varint_bounds(data@);
        lemma_group_weight_values();
    }
    if budget == 0 || data.len() == 0 {
        return None;
    }
    let b: u8 = data[0];
    if b < 128 {
        return Some((b as u128, 1));
    }
    let rest = &data[1..data.len()];
    assert(rest@ =~= data@.skip(1));
    match read_groups(rest, budget - 1) {
        Some((v, n)) => {
            proof {
                lemma_group_weight_monotonic(n as nat, 9);
                assert(group_weight((n + 1) as nat) == 128 * group_weight(n as nat));
            }
            Some(((b - 128) as u128 + 128 * v, n + 1))
        },
        None => None,
    }
}

pub proof fn lemma_group_weight_monotonic(a: nat, b: nat)
    requires
        a <= b,
    ensures
        group_weight(a) <= group_weight(b),
    decreases b,
{
    if a < b {
        lemma_group_weight_monotonic(a, (b - 1) as nat);
    }
}

/// Reads one varint of at most ten bytes and 64 bits from the front of
/// `data`. Returns the value and the number of bytes it occupies.
pub fn read_varint(data: &[u8]) -> (r: Option<(u64, usize)>)
    ensures
        r == match parse_varint_u64(data@) {
            Some((v, n)) => Some((v, n as usize)),
            None => None,
        },
        r is Some ==> 1 <= r.unwrap().1 <= data@.len() && r.unwrap().1 <= 10,
{
    proof {
        lemma_parse_varint_bounds(data@);
        lemma_group_weight_values();
        if parse_varint(data@) is Some && varint_len(data@) <= 10 {
            lemma_group_weight_monotonic(varint_len(data@), 10);
        }
    }
    match read_groups(data, 10) {
        Some((v, n)) => {
            if v <= 0xffff_ffff_ffff_ffff {
                Some((v as u64, n))
            } else {
                None
            }
        },
        None => None,
    }
}

/// Appends the canonical varint of `v` to `out`.
pub fn write_varint(v: u128, out: &mut Vec<u8>)
    ensures
        final(out)@ == old(out)@ + varint_encoding(v as nat),
    decreases v,
{
    if v < 128 {
        out.push(v as u8);
        assert(out@ =~= old(out)@ + varint_encoding(v as nat));
    } else {
        out.push((v % 128 + 128) as u8);
        write_varint(v / 128, out);
        assert(out@ =~= old(out)@ + varint_encoding(v as nat));
    }
}

/// Reads `width` bytes from the front of `data` as a little-endian number.
pub fn read_le(data: &[u8], width: usize) -> (r: u64)
    requires
        width <= 8,
        width <= data@.len(),
    ensures
        r == le_value(data@.take(width as int)),
    decreases width,
{
    if width == 0 {
        return 0;
    }
    let rest = &data[1..data.len()];
    assert(rest@ =~= data@.skip(1));
    let high: u64 = read_le(rest, width - 1);
    proof {
        let s = data@.take(width as int);
        assert(s.skip(1) =~= rest@.take(width - 1));
        lemma_le_value_bound(s.skip(1));
        lemma_byte_weight_monotonic((width - 1) as nat, 7);
        reveal_with_fuel(byte_weight, 9);
    }
    data[0] as u64 + 256 * high
}

pub proof fn lemma_byte_weight_monotonic(a: nat, b: nat)
    requires
        a <= b,
    ensures
        byte_weight(a) <= byte_weight(b),
    decreases b,
{
    if a < b {
        lemma_byte_weight_monotonic(a, (b - 1) as nat);
    }
}

/// Appends the `width` low-order bytes of `v` to `out`, least significant
/// first.
pub fn write_le(v: u64, width: usize, out: &mut Vec<u8>)
    ensures
        final(out)@ == old(out)@ + le_bytes(v as nat, width as nat),
    decreases width,
{
    if width == 0 {
        assert(out@ =~= old(out)@ + le_bytes(v as nat, 0));
    } else {
        out.push((v % 256) as u8);
        write_le(v / 256, width - 1, out);
        assert(out@ =~= old(out)@ + le_bytes(v as nat, width as nat));
    }
}

/// Reinterprets a 64-bit pattern as a signed number.
pub fn to_signed_64(u: u64) -> (r: i64)
    ensures
        r == signed_64(u as int),
{
    if u < 0x8000_0000_0000_0000 {
        u as i64
    } else {
        ((u - 0x8000_0000_0000_0000) as i64) + i64::MIN
    }
}

/// The 64-bit pattern of a signed number.
pub fn to_unsigned_64(v: i64) -> (r: u64)
    ensures
        r == unsigned_64(v as int),
{
    if v >= 0 {
        v as u64
    } else {
        ((v - i64::MIN) as u64) + 0x8000_0000_0000_0000
    }
}

/// Reinterprets a 32-bit pattern as a signed number.
pub fn to_signed_32(u: u32) -> (r: i32)
    ensures
        r == signed_32(u as int),
{
    if u < 0x8000_0000 {
        u as i32
    } else {
        ((u - 0x8000_0000) as i32) + i32::MIN
    }
}

/// The 32-bit pattern of a signed number.
pub fn to_unsigned_32(v: i32) -> (r: u32)
    ensures
        r == unsigned_32(v as int),
{
    if v >= 0 {
        v as u32
    } else {
        ((v - i32::MIN) as u32) + 0x8000_0000
    }
}

/// Zig-zag decoding of a 64-bit number.
pub fn zigzag_to_signed(u: u64) -> (r: i64)
    ensures
        r == zigzag_decode(u as int),
{
    if u % 2 == 0 {
        (u / 2) as i64
    } else {
        -((u / 2) as i64) - 1
    }
}

/// Zig-zag encoding of a signed 64-bit number.
pub fn zigzag_from_signed(v: i64) -> (r: u64)
    ensures
        r == zigzag_encode(v as int),
{
    if v >= 0 {
        (v as u64) * 2
    } else {
        ((-(v + 1)) as u64) * 2 + 1
    }
}

} // verus!
