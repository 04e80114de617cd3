//! A payload that is not reproducible is not reproduced.
//!
//! Where a payload is written otherwise than the encoder writes, what the
//! encoder makes of the decoded message differs from it. Together with the
//! round trip of reproducible payloads this says which payloads survive
//! decoding and encoding unchanged: the reproducible ones, and no others.

use vstd::prelude::*;

use crate::context::{ContextView, MessageInfoView, Multiplicity, ValueType};
use crate::decode::FieldValueView;
use crate::format::{
    decode_body, decode_field, decode_fields, decode_packed, decode_typed, decode_unknown,
    delimited, field_encoding, fields_encoding, garbage_bytes, is_packable, length_delimited,
    message_encoding, packed_encoding, packed_parse, scalar_encoding, scalar_parse, tag_encoding,
    value_payload,
};
use crate::roundtrip::{
    field_exact, items_exact, lemma_field_round_trip, lemma_round_trip, packed_exact, reproducible,
    scalar_exact, typed_exact, unknown_exact,
};
use crate::wire::{
    lemma_minimal_varint_is_encoding, lemma_parse_varint_bounds, lemma_varint_encoding_shape,
    minimal_varint, parse_varint, parse_varint_u64, varint_encoding, varint_len, varint_value,
};

verus! {

/// The two byte strings differ at a place that both have.
pub open spec fn clash(x: Seq<u8>, y: Seq<u8>) -> bool {
    exists|j: int| 0 <= j < x.len() && j < y.len() && #[trigger] x[j] != y[j]
}

/// Byte strings that clash are not the same, whatever follows them.
pub proof fn lemma_clash_extended(x: Seq<u8>, y: Seq<u8>, a: Seq<u8>, b: Seq<u8>)
    requires
        clash(x, y),
    ensures
        clash(x + a, y + b),
        x + a != y + b,
        x != y,
{
    let j = choose|j: int| 0 <= j < x.len() && j < y.len() && #[trigger] x[j] != y[j];
    assert((x + a)[j] != (y + b)[j]);
}

/// Byte strings that clash still do behind a common start.
pub proof fn lemma_clash_behind(p: Seq<u8>, x: Seq<u8>, y: Seq<u8>)
    requires
        clash(x, y),
    ensures
        clash(p + x, p + y),
{
    let j = choose|j: int| 0 <= j < x.len() && j < y.len() && #[trigger] x[j] != y[j];
    assert((p + x)[p.len() + j] != (p + y)[p.len() + j]);
}

/// Different byte strings of one length clash.
pub proof fn lemma_same_length_clash(x: Seq<u8>, y: Seq<u8>)
    requires
        x.len() == y.len(),
        x != y,
    ensures
        clash(x, y),
{
    if forall|j: int| 0 <= j < x.len() ==> x[j] == y[j] {
        assert(x =~= y);
    }
}

/// A byte string that clashes with the start of another clashes with it.
pub proof fn lemma_clash_with_start(x: Seq<u8>, s: Seq<u8>, n: int)
    requires
        0 <= n <= s.len(),
        clash(x, s.take(n)),
    ensures
        clash(x, s),
{
    let j = choose|j: int| 0 <= j < x.len() && j < s.take(n).len() && #[trigger] x[j] != s.take(
        n,
    )[j];
    assert(x[j] != s[j]);
}

/// Every byte of a varint but its last has the high bit set.
pub proof fn lemma_parse_varint_shape(s: Seq<u8>)
    requires
        parse_varint(s) is Some,
    ensures
        forall|j: int| 0 <= j < varint_len(s) - 1 ==> s[j] >= 128,
        s[varint_len(s) - 1] < 128,
        varint_len(s) <= s.len(),
    decreases s.len(),
{
    lemma_parse_varint_bounds(s);
    if s[0] >= 128 {
        let r = s.skip(1);
        lemma_parse_varint_shape(r);
        assert forall|j: int| 0 <= j < varint_len(s) - 1 implies s[j] >= 128 by {
            if j > 0 {
                assert(s[j] == r[j - 1]);
            }
        }
    }
}

/// The canonical varint of any number clashes with a varint that has a
/// padding group.
pub proof fn lemma_padded_varint_clashes(a: nat, s: Seq<u8>)
    requires
        parse_varint(s) is Some,
        !minimal_varint(s),
    ensures
        clash(varint_encoding(a), s),
{
    let e = varint_encoding(a);
    let m = e.len() as int;
    let n = varint_len(s) as int;
    lemma_varint_encoding_shape(a);
    lemma_parse_varint_shape(s);
    if m < n {
        assert(e[m - 1] == e.last());
        assert(e[m - 1] != s[m - 1]);
    } else {
        if n - 1 < m - 1 {
            assert(e[n - 1] >= 128);
        } else {
            assert(e[n - 1] == e.last());
        }
        assert(e[n - 1] != s[n - 1]);
    }
}

/// The canonical varints of different numbers clash.
pub proof fn lemma_encodings_clash(a: nat, b: nat)
    requires
        a != b,
    ensures
        clash(varint_encoding(a), varint_encoding(b)),
    decreases a,
{
    let x = varint_encoding(a);
    let y = varint_encoding(b);
    if a < 128 || b < 128 {
        assert(x[0] != y[0]);
    } else if a % 128 != b % 128 {
        assert(x[0] != y[0]);
    } else {
        lemma_encodings_clash(a / 128, b / 128);
        lemma_clash_behind(seq![(a % 128 + 128) as u8], varint_encoding(a / 128), varint_encoding(b / 128));
    }
}

/// A scalar that is not written as the encoder writes it is encoded to
/// bytes that clash with those it was read from.
pub proof fn lemma_scalar_deviates(vt: ValueType, s: Seq<u8>)
    requires
        scalar_parse(vt, s) is Some,
        !scalar_exact(vt, s),
    ensures
        clash(scalar_encoding(vt, scalar_parse(vt, s)->Some_0.0), s),
{
    lemma_parse_varint_bounds(s);
    let v = scalar_parse(vt, s)->Some_0.0;
    if vt is Bool {
        let y = scalar_encoding(vt, v);
        assert(y[0] == v as u8);
        if minimal_varint(s) {
            assert(varint_value(s) > 1);
            assert(y[0] != s[0]);
        } else {
            assert(s[0] >= 128);
            assert(y[0] != s[0]);
        }
    } else {
        lemma_padded_varint_clashes(
            match vt {
                ValueType::UInt32 | ValueType::UInt64 => v as nat,
                ValueType::SInt32 | ValueType::SInt64 => crate::wire::zigzag_encode(v) as nat,
                _ => crate::wire::unsigned_64(v) as nat,
            },
            s,
        );
    }
}

/// A packed payload with a scalar that is not written as the encoder writes
/// it is encoded to bytes that clash with it.
pub proof fn lemma_items_deviate(vt: ValueType, s: Seq<u8>)
    requires
        packed_parse(vt, s) is Some,
        !items_exact(vt, s),
    ensures
        clash(packed_encoding(vt, packed_parse(vt, s)->Some_0), s),
    decreases s.len(),
{
    lemma_parse_varint_bounds(s);
    let (v, n) = scalar_parse(vt, s)->Some_0;
    let rest = packed_parse(vt, s.skip(n as int))->Some_0;
    let items = seq![v] + rest;
    assert(items.skip(1) =~= rest);
    assert(s =~= s.take(n as int) + s.skip(n as int));
    if scalar_exact(vt, s) {
        crate::roundtrip::lemma_scalar_round_trip(vt, s);
        lemma_items_deviate(vt, s.skip(n as int));
        lemma_clash_behind(s.take(n as int), packed_encoding(vt, rest), s.skip(n as int));
    } else {
        lemma_scalar_deviates(vt, s);
        lemma_clash_extended(
            scalar_encoding(vt, v),
            s,
            packed_encoding(vt, rest),
            Seq::<u8>::empty(),
        );
        assert(s + Seq::<u8>::empty() =~= s);
    }
}

/// A length-delimited value whose length has a padding group, or whose
/// payload is encoded to other bytes, is encoded to bytes that clash with
/// those it was read from.
pub proof fn lemma_delimited_deviates(s: Seq<u8>, q: Seq<u8>)
    requires
        length_delimited(s) is Some,
        !minimal_varint(s) || q != length_delimited(s)->Some_0.0,
    ensures
        clash(delimited(q), s),
{
    lemma_parse_varint_bounds(s);
    let (len, n) = parse_varint_u64(s)->Some_0;
    let (p, used) = length_delimited(s)->Some_0;
    let head = varint_encoding(q.len());
    if !minimal_varint(s) {
        lemma_padded_varint_clashes(q.len(), s);
        lemma_clash_extended(head, s, q, Seq::<u8>::empty());
        assert(s + Seq::<u8>::empty() =~= s);
    } else {
        lemma_minimal_varint_is_encoding(s);
        assert(s.take(used as int) =~= s.take(n as int) + p);
        if q.len() != p.len() {
            lemma_encodings_clash(q.len(), p.len());
            lemma_clash_extended(head, s.take(n as int), q, p);
        } else {
            lemma_same_length_clash(q, p);
            lemma_clash_behind(head, q, p);
        }
        lemma_clash_with_start(delimited(q), s, used as int);
    }
}

/// An unknown value that is not written as the encoder writes it is encoded
/// to bytes that clash with those it was read from.
pub proof fn lemma_unknown_deviates(wire_type: u8, s: Seq<u8>)
    requires
        !unknown_exact(wire_type, s),
    ensures
        clash(value_payload(decode_unknown(wire_type, s).0), s),
{
    lemma_parse_varint_bounds(s);
    if wire_type == 0 {
        lemma_padded_varint_clashes(parse_varint_u64(s)->Some_0.0 as nat, s);
    } else {
        lemma_delimited_deviates(s, length_delimited(s)->Some_0.0);
    }
}

/// A packed array that is not written as the encoder writes it is encoded
/// to bytes that clash with those it was read from.
pub proof fn lemma_packed_deviates(vt: ValueType, wire_type: u8, s: Seq<u8>)
    requires
        !packed_exact(vt, s),
    ensures
        clash(value_payload(decode_packed(vt, wire_type, s).0), s),
{
    let p = length_delimited(s)->Some_0.0;
    let items = packed_parse(vt, p)->Some_0;
    if !items_exact(vt, p) {
        lemma_items_deviate(vt, p);
        lemma_clash_extended(packed_encoding(vt, items), p, Seq::empty(), Seq::empty());
    }
    lemma_delimited_deviates(s, packed_encoding(vt, items));
}

/// A single typed value that is not written as the encoder writes it is
/// encoded to bytes that clash with those it was read from.
pub proof fn lemma_typed_deviates(ctx: ContextView, vt: ValueType, wire_type: u8, s: Seq<u8>)
    requires
        !typed_exact(ctx, vt, s),
    ensures
        clash(value_payload(decode_typed(ctx, vt, wire_type, s).0), s),
    decreases s.len(), 0nat,
{
    lemma_parse_varint_bounds(s);
    match vt {
        ValueType::String => {
            let p = length_delimited(s)->Some_0.0;
            let q = vstd::utf8::encode_utf8(crate::text::lossy_text(p));
            vstd::utf8::encode_utf8_valid_utf8(crate::text::lossy_text(p));
            lemma_delimited_deviates(s, q);
        },
        ValueType::Bytes => {
            lemma_delimited_deviates(s, length_delimited(s)->Some_0.0);
        },
        ValueType::Message(m) => {
            let p = length_delimited(s)->Some_0.0;
            if !reproducible(ctx, ctx.message(m), p) {
                lemma_deviation(ctx, ctx.message(m), p);
            }
            lemma_delimited_deviates(s, message_encoding(decode_body(ctx, ctx.message(m), p)));
        },
        _ => {
            lemma_scalar_deviates(vt, s);
        },
    }
}

/// The value of a field that is not written as the encoder writes it is
/// encoded to bytes that clash with those it was read from.
pub proof fn lemma_field_deviates(
    ctx: ContextView,
    schema: MessageInfoView,
    number: u64,
    wire_type: u8,
    s: Seq<u8>,
)
    requires
        !field_exact(ctx, schema, number, wire_type, s),
    ensures
        clash(value_payload(decode_field(ctx, schema, number, wire_type, s).0), s),
    decreases s.len(), 1nat,
{
    match schema.field_by_number(number) {
        Some(f) => {
            if f.multiplicity == Multiplicity::RepeatedPacked && wire_type == 2 && is_packable(
                f.field_type,
            ) {
                lemma_packed_deviates(f.field_type, wire_type, s);
            } else if f.field_type.spec_wire_type() == wire_type {
                lemma_typed_deviates(ctx, f.field_type, wire_type, s);
            } else {
                lemma_unknown_deviates(wire_type, s);
            }
        },
        None => {
            lemma_unknown_deviates(wire_type, s);
        },
    }
}

/// A message body that is not reproducible is not reproduced: the message
/// that it decodes to is encoded to other bytes.
#[verifier::rlimit(50)]
pub proof fn lemma_deviation(ctx: ContextView, schema: MessageInfoView, s: Seq<u8>)
    requires
        !reproducible(ctx, schema, s),
    ensures
        message_encoding(decode_body(ctx, schema, s)) != s,
    decreases s.len(), 2nat,
{
    lemma_parse_varint_bounds(s);
    match parse_varint_u64(s) {
        Some((tag, n)) => {
            let number = tag / 8;
            let wire_type = (tag % 8) as u8;
            let rest = s.skip(n as int);
            let (value, used) = decode_field(ctx, schema, number, wire_type, rest);
            crate::format::lemma_decode_field_bounds(ctx, schema, number, wire_type, rest);
            let tail = rest.skip(used as int);
            let (more, garbage) = decode_fields(ctx, schema, tail);
            let f = FieldValueView { number, value };
            let fields = seq![f] + more;
            assert(decode_fields(ctx, schema, s).0 == fields);
            assert(fields.skip(1) =~= more);
            crate::format::lemma_decoded_wire_type(ctx, schema, number, wire_type, rest);
            let head = tag_encoding(number, wire_type);
            let payload = value_payload(value);
            let behind = fields_encoding(more) + garbage_bytes(garbage);
            let out = fields_encoding(fields) + garbage_bytes(garbage);
            assert(fields[0] == f);
            assert(field_encoding(f) == head + payload);
            assert(fields_encoding(fields) == field_encoding(f) + fields_encoding(more));
            assert(out =~= head + payload + behind);
            assert(behind == message_encoding(decode_body(ctx, schema, tail)));
            assert(s =~= s.take(n as int) + rest);
            if !minimal_varint(s) {
                lemma_padded_varint_clashes((number * 8 + wire_type) as nat, s);
                lemma_clash_extended(head, s, payload + behind, Seq::<u8>::empty());
                assert(s + Seq::<u8>::empty() =~= s);
                assert(head + (payload + behind) =~= out);
            } else {
                lemma_minimal_varint_is_encoding(s);
                if !field_exact(ctx, schema, number, wire_type, rest) {
                    lemma_field_deviates(ctx, schema, number, wire_type, rest);
                    lemma_clash_extended(payload, rest, behind, Seq::<u8>::empty());
                    assert(rest + Seq::<u8>::empty() =~= rest);
                    lemma_clash_behind(head, payload + behind, rest);
                    assert(head + (payload + behind) =~= out);
                    lemma_clash_extended(out, s, Seq::<u8>::empty(), Seq::<u8>::empty());
                    assert(out + Seq::<u8>::empty() =~= out);
                } else {
                    lemma_field_round_trip(ctx, schema, number, wire_type, rest);
                    lemma_deviation(ctx, schema, tail);
                    assert(rest =~= rest.take(used as int) + tail);
                    if out == s {
                        let start = s.take(n as int) + rest.take(used as int);
                        assert(out =~= start + behind);
                        assert(s =~= start + tail);
                        assert(behind =~= (start + behind).skip(start.len() as int));
                        assert(tail =~= (start + tail).skip(start.len() as int));
                    }
                }
            }
        },
        None => {},
    }
}

/// Round trip, both ways: decoding a message body and encoding the result
/// gives the body back exactly when the body is reproducible.
pub proof fn lemma_reproduced_iff_reproducible(
    ctx: ContextView,
    schema: MessageInfoView,
    s: Seq<u8>,
)
    ensures
        message_encoding(decode_body(ctx, schema, s)) == s <==> reproducible(ctx, schema, s),
{
    if reproducible(ctx, schema, s) {
        lemma_round_trip(ctx, schema, s);
    } else {
        lemma_deviation(ctx, schema, s);
    }
}

} // verus!
