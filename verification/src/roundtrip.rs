//! Decoding followed by encoding gives the payload back.
//!
//! The encoder writes every varint in its shortest form, a `bool` as 0 or 1,
//! and a string as the UTF-8 of its text. A payload that was written that
//! way is *reproducible*; for such a payload, and for every schema, the
//! bytes that come out are the bytes that went in. Fields that the schema
//! does not know, values that are cut short, values with an invalid wire
//! type and the garbage behind the last field of a message do not stand in
//! the way: they hold their own bytes.

use vstd::prelude::*;

use crate::context::{ContextView, MessageInfoView, MessageRef, Multiplicity, ValueType};
use crate::decode::FieldValueView;
use crate::format::{
    decode_body, decode_field, decode_fields, decode_message, decode_packed, decode_typed,
    decode_unknown, delimited, field_encoding, fields_encoding, garbage_bytes, is_packable,
    length_delimited, message_encoding, packed_encoding, packed_parse, scalar_encoding,
    scalar_in_range, scalar_parse, tag_encoding, value_payload, value_wire_type,
};
use crate::wire::{
    lemma_byte_weight_values, lemma_encoding_is_minimal, lemma_group_weight_values,
    lemma_le_bytes_len, lemma_le_bytes_of_value, lemma_le_value_bound, lemma_le_value_of_bytes,
    lemma_minimal_varint_is_encoding, lemma_parse_of_encoding, lemma_parse_varint_bounds,
    lemma_varint_encoding_len, minimal_varint, parse_varint_u64, unsigned_32, unsigned_64,
    varint_encoding, varint_value, zigzag_encode,
};

verus! {

/// The scalar of type `vt` at the front of `s` is written as the encoder
/// writes it: a varint in shortest form, and a `bool` as 0 or 1. A
/// fixed-width scalar always is.
pub open spec fn scalar_exact(vt: ValueType, s: Seq<u8>) -> bool {
    match vt {
        ValueType::Double | ValueType::Fixed64 | ValueType::SFixed64 => true,
        ValueType::Float | ValueType::Fixed32 | ValueType::SFixed32 => true,
        ValueType::String | ValueType::Bytes | ValueType::Message(_) => true,
        ValueType::Bool => minimal_varint(s) && varint_value(s) <= 1,
        _ => minimal_varint(s),
    }
}

/// Every scalar of the packed payload `s` is written as the encoder writes
/// it.
pub open spec fn items_exact(vt: ValueType, s: Seq<u8>) -> bool
    decreases s.len(),
{
    if s.len() == 0 {
        true
    } else {
        match scalar_parse(vt, s) {
            Some((_, n)) => {
                proof {
                    lemma_parse_varint_bounds(s);
                }
                scalar_exact(vt, s) && items_exact(vt, s.skip(n as int))
            },
            None => true,
        }
    }
}

/// A value of unknown type is written as the encoder writes it: where it is
/// a varint or starts with a length that could be read, that varint is in
/// shortest form.
pub open spec fn unknown_exact(wire_type: u8, s: Seq<u8>) -> bool {
    if wire_type == 0 {
        parse_varint_u64(s) is Some ==> minimal_varint(s)
    } else if wire_type == 2 {
        length_delimited(s) is Some ==> minimal_varint(s)
    } else {
        true
    }
}

/// A packed array is written as the encoder writes it: where all its
/// elements could be read, its length and each element are.
pub open spec fn packed_exact(vt: ValueType, s: Seq<u8>) -> bool {
    match length_delimited(s) {
        Some((payload, _)) => packed_parse(vt, payload) is Some ==> minimal_varint(s)
            && items_exact(vt, payload),
        None => true,
    }
}

/// A single value of the declared type `vt` is written as the encoder
/// writes it. A string is valid UTF-8; a message is reproducible itself.
pub open spec fn typed_exact(ctx: ContextView, vt: ValueType, s: Seq<u8>) -> bool
    decreases s.len(), 0nat,
{
    match vt {
        ValueType::String => match length_delimited(s) {
            Some((payload, _)) => minimal_varint(s) && vstd::utf8::valid_utf8(payload),
            None => true,
        },
        ValueType::Bytes => length_delimited(s) is Some ==> minimal_varint(s),
        ValueType::Message(m) => match length_delimited(s) {
            Some((payload, _)) => {
                proof {
                    lemma_parse_varint_bounds(s);
                }
                minimal_varint(s) && reproducible(ctx, ctx.message(m), payload)
            },
            None => true,
        },
        _ => scalar_parse(vt, s) is Some ==> scalar_exact(vt, s),
    }
}

/// The value of one field is written as the encoder writes it.
pub open spec fn field_exact(
    ctx: ContextView,
    schema: MessageInfoView,
    number: u64,
    wire_type: u8,
    s: Seq<u8>,
) -> bool
    decreases s.len(), 1nat,
{
    match schema.field_by_number(number) {
        Some(f) => if f.multiplicity == Multiplicity::RepeatedPacked && wire_type == 2
            && is_packable(f.field_type) {
            packed_exact(f.field_type, s)
        } else if f.field_type.spec_wire_type() == wire_type {
            typed_exact(ctx, f.field_type, s)
        } else {
            unknown_exact(wire_type, s)
        },
        None => unknown_exact(wire_type, s),
    }
}

/// The message body `s` is one that encoding reproduces.
///
/// Every tag that can be read is in shortest form; so is every length and
/// every varint value. Every `bool` is 0 or 1. Every string is valid UTF-8.
/// The same holds of every message inside it. Where a tag cannot be read,
/// what is left is garbage, which is kept as it is.
pub open spec fn reproducible(ctx: ContextView, schema: MessageInfoView, s: Seq<u8>) -> bool
    decreases s.len(), 2nat,
{
    if s.len() == 0 {
        true
    } else {
        match parse_varint_u64(s) {
            Some((tag, n)) => {
                proof {
                    lemma_parse_varint_bounds(s);
                }
                let rest = s.skip(n as int);
                let used = decode_field(ctx, schema, tag / 8, (tag % 8) as u8, rest).1;
                &&& minimal_varint(s)
                &&& field_exact(ctx, schema, tag / 8, (tag % 8) as u8, rest)
                &&& used <= rest.len() ==> reproducible(ctx, schema, rest.skip(used as int))
            },
            None => true,
        }
    }
}

/// A scalar that is written as the encoder writes it is encoded to the bytes
/// it was read from.
pub proof fn lemma_scalar_round_trip(vt: ValueType, s: Seq<u8>)
    requires
        scalar_parse(vt, s) is Some,
        scalar_exact(vt, s),
    ensures
        scalar_encoding(vt, scalar_parse(vt, s).unwrap().0) == s.take(
            scalar_parse(vt, s).unwrap().1 as int,
        ),
{
    lemma_byte_weight_values();
    match vt {
        ValueType::Double | ValueType::Fixed64 | ValueType::SFixed64 => {
            lemma_le_value_bound(s.take(8));
            lemma_le_bytes_of_value(s.take(8));
        },
        ValueType::Float | ValueType::Fixed32 | ValueType::SFixed32 => {
            lemma_le_value_bound(s.take(4));
            lemma_le_bytes_of_value(s.take(4));
        },
        ValueType::String | ValueType::Bytes | ValueType::Message(_) => {},
        _ => {
            lemma_parse_varint_bounds(s);
            lemma_minimal_varint_is_encoding(s);
        },
    }
}

/// A packed payload whose scalars are written as the encoder writes them is
/// encoded to itself.
pub proof fn lemma_items_round_trip(vt: ValueType, s: Seq<u8>)
    requires
        packed_parse(vt, s) is Some,
        items_exact(vt, s),
    ensures
        packed_encoding(vt, packed_parse(vt, s).unwrap()) == s,
    decreases s.len(),
{
    if s.len() == 0 {
        assert(packed_encoding(vt, Seq::<int>::empty()) =~= s);
    } else {
        lemma_parse_varint_bounds(s);
        let (v, n) = scalar_parse(vt, s).unwrap();
        let rest = packed_parse(vt, s.skip(n as int)).unwrap();
        let items = seq![v] + rest;
        lemma_scalar_round_trip(vt, s);
        lemma_items_round_trip(vt, s.skip(n as int));
        assert(items.skip(1) =~= rest);
        assert(s =~= s.take(n as int) + s.skip(n as int));
    }
}

/// A length-delimited payload behind a length in shortest form is encoded to
/// the bytes it was read from.
pub proof fn lemma_delimited_round_trip(s: Seq<u8>)
    requires
        length_delimited(s) is Some,
        minimal_varint(s),
    ensures
        delimited(length_delimited(s).unwrap().0) == s.take(length_delimited(s).unwrap().1 as int),
{
    lemma_parse_varint_bounds(s);
    lemma_minimal_varint_is_encoding(s);
    let (len, n) = parse_varint_u64(s).unwrap();
    let (payload, used) = length_delimited(s).unwrap();
    assert(s.take(used as int) =~= s.take(n as int) + payload);
}

/// An unknown value that is written as the encoder writes it is encoded to
/// the bytes it was read from, under the wire type it was read with.
pub proof fn lemma_unknown_round_trip(wire_type: u8, s: Seq<u8>)
    requires
        unknown_exact(wire_type, s),
    ensures
        decode_unknown(wire_type, s).1 <= s.len(),
        value_payload(decode_unknown(wire_type, s).0) == s.take(
            decode_unknown(wire_type, s).1 as int,
        ),
        value_wire_type(decode_unknown(wire_type, s).0) == wire_type,
{
    lemma_byte_weight_values();
    lemma_parse_varint_bounds(s);
    assert(s.take(s.len() as int) =~= s);
    if wire_type == 0 {
        if parse_varint_u64(s) is Some {
            lemma_minimal_varint_is_encoding(s);
        }
    } else if wire_type == 1 {
        if s.len() >= 8 {
            lemma_le_value_bound(s.take(8));
            lemma_le_bytes_of_value(s.take(8));
        }
    } else if wire_type == 2 {
        if length_delimited(s) is Some {
            lemma_delimited_round_trip(s);
        }
    } else if wire_type == 5 {
        if s.len() >= 4 {
            lemma_le_value_bound(s.take(4));
            lemma_le_bytes_of_value(s.take(4));
        }
    }
}

/// A packed array that is written as the encoder writes it is encoded to the
/// bytes it was read from.
pub proof fn lemma_packed_round_trip(vt: ValueType, wire_type: u8, s: Seq<u8>)
    requires
        packed_exact(vt, s),
        wire_type == 2,
    ensures
        decode_packed(vt, wire_type, s).1 <= s.len(),
        value_payload(decode_packed(vt, wire_type, s).0) == s.take(
            decode_packed(vt, wire_type, s).1 as int,
        ),
        value_wire_type(decode_packed(vt, wire_type, s).0) == wire_type,
{
    lemma_parse_varint_bounds(s);
    assert(s.take(s.len() as int) =~= s);
    match length_delimited(s) {
        Some((payload, n)) => {
            if packed_parse(vt, payload) is Some {
                lemma_items_round_trip(vt, payload);
                lemma_delimited_round_trip(s);
            }
        },
        None => {},
    }
}

/// A single typed value that is written as the encoder writes it is encoded
/// to the bytes it was read from.
pub proof fn lemma_typed_round_trip(ctx: ContextView, vt: ValueType, wire_type: u8, s: Seq<u8>)
    requires
        typed_exact(ctx, vt, s),
        vt.spec_wire_type() == wire_type,
    ensures
        decode_typed(ctx, vt, wire_type, s).1 <= s.len(),
        value_payload(decode_typed(ctx, vt, wire_type, s).0) == s.take(
            decode_typed(ctx, vt, wire_type, s).1 as int,
        ),
        value_wire_type(decode_typed(ctx, vt, wire_type, s).0) == wire_type,
    decreases s.len(), 0nat,
{
    lemma_parse_varint_bounds(s);
    assert(s.take(s.len() as int) =~= s);
    match vt {
        ValueType::String => {
            if length_delimited(s) is Some {
                let payload = length_delimited(s).unwrap().0;
                vstd::utf8::decode_utf8_encode_utf8(payload);
                lemma_delimited_round_trip(s);
            }
        },
        ValueType::Bytes => {
            if length_delimited(s) is Some {
                lemma_delimited_round_trip(s);
            }
        },
        ValueType::Message(m) => {
            if length_delimited(s) is Some {
                let payload = length_delimited(s).unwrap().0;
                lemma_round_trip(ctx, ctx.message(m), payload);
                lemma_delimited_round_trip(s);
            }
        },
        _ => {
            if scalar_parse(vt, s) is Some {
                lemma_scalar_round_trip(vt, s);
            }
        },
    }
}

/// The value of a field that is written as the encoder writes it is encoded
/// to the bytes it was read from, under the wire type of its tag.
pub proof fn lemma_field_round_trip(
    ctx: ContextView,
    schema: MessageInfoView,
    number: u64,
    wire_type: u8,
    s: Seq<u8>,
)
    requires
        field_exact(ctx, schema, number, wire_type, s),
    ensures
        decode_field(ctx, schema, number, wire_type, s).1 <= s.len(),
        value_payload(decode_field(ctx, schema, number, wire_type, s).0) == s.take(
            decode_field(ctx, schema, number, wire_type, s).1 as int,
        ),
        value_wire_type(decode_field(ctx, schema, number, wire_type, s).0) == wire_type,
    decreases s.len(), 1nat,
{
    match schema.field_by_number(number) {
        Some(f) => {
            if f.multiplicity == Multiplicity::RepeatedPacked && wire_type == 2 && is_packable(
                f.field_type,
            ) {
                lemma_packed_round_trip(f.field_type, wire_type, s);
            } else if f.field_type.spec_wire_type() == wire_type {
                lemma_typed_round_trip(ctx, f.field_type, wire_type, s);
            } else {
                lemma_unknown_round_trip(wire_type, s);
            }
        },
        None => {
            lemma_unknown_round_trip(wire_type, s);
        },
    }
}

/// A field, the fields behind it and the garbage make up the bytes that
/// the field, and then the rest, were read from.
proof fn lemma_field_then_rest(
    s: Seq<u8>,
    n: int,
    used: int,
    field: Seq<u8>,
    more: Seq<u8>,
    garbage: Seq<u8>,
)
    requires
        0 <= n <= s.len(),
        0 <= used <= s.len() - n,
        field == s.take(n) + s.skip(n).take(used),
        more + garbage == s.skip(n).skip(used),
    ensures
        (field + more) + garbage == s,
{
    assert((field + more) + garbage =~= field + (more + garbage));
    assert(s =~= s.take(n) + s.skip(n).take(used) + s.skip(n).skip(used));
}

/// Round trip: the message that a reproducible message body decodes to is
/// encoded to the body itself, garbage included. This holds for every
/// schema and every context, whether or not the payload conforms to them.
#[verifier::rlimit(50)]
pub proof fn lemma_round_trip(ctx: ContextView, schema: MessageInfoView, s: Seq<u8>)
    requires
        reproducible(ctx, schema, s),
    ensures
        message_encoding(decode_body(ctx, schema, s)) == s,
    decreases s.len(), 2nat,
{
    if s.len() == 0 {
        assert(fields_encoding(Seq::<FieldValueView>::empty()) + Seq::<u8>::empty() =~= s);
    } else if parse_varint_u64(s) is None {
        assert(fields_encoding(Seq::<FieldValueView>::empty()) + s =~= s);
    } else {
        lemma_parse_varint_bounds(s);
        lemma_minimal_varint_is_encoding(s);
        let (tag, n) = parse_varint_u64(s).unwrap();
        let number = tag / 8;
        let wire_type = (tag % 8) as u8;
        let rest = s.skip(n as int);
        lemma_field_round_trip(ctx, schema, number, wire_type, rest);
        let (value, used) = decode_field(ctx, schema, number, wire_type, rest);
        let tail = rest.skip(used as int);
        lemma_round_trip(ctx, schema, tail);
        let (more, garbage) = decode_fields(ctx, schema, tail);
        let f = FieldValueView { number, value };
        let fields = seq![f] + more;
        assert(decode_fields(ctx, schema, s) == (fields, garbage));
        assert(fields.skip(1) =~= more);
        assert(fields[0] == f);
        assert(tag_encoding(number, wire_type) == varint_encoding(tag as nat));
        assert(field_encoding(f) == s.take(n as int) + rest.take(used as int));
        assert(fields_encoding(fields) == field_encoding(f) + fields_encoding(more));
        assert(message_encoding(decode_body(ctx, schema, tail)) == tail);
        assert(fields_encoding(more) + garbage_bytes(garbage) == tail);
        lemma_field_then_rest(
            s,
            n as int,
            used as int,
            field_encoding(f),
            fields_encoding(more),
            garbage_bytes(garbage),
        );
    }
}

/// Round trip for a message of a context: decoding a reproducible payload
/// under the message that `m` points at, and encoding the result, gives the
/// payload back.
pub proof fn lemma_decode_encode(ctx: ContextView, m: MessageRef, s: Seq<u8>)
    requires
        reproducible(ctx, ctx.message(m), s),
    ensures
        message_encoding(decode_message(ctx, m, s)) == s,
{
    lemma_round_trip(ctx, ctx.message(m), s);
}

/// What the encoder writes for a scalar is read back as that scalar,
/// whatever follows it, and is written as the encoder writes it.
pub proof fn lemma_scalar_parse_of_encoding(vt: ValueType, v: int, tail: Seq<u8>)
    requires
        scalar_in_range(vt, v),
    ensures
        scalar_parse(vt, scalar_encoding(vt, v) + tail) == Some(
            (v, scalar_encoding(vt, v).len()),
        ),
        scalar_exact(vt, scalar_encoding(vt, v) + tail),
{
    let bytes = scalar_encoding(vt, v);
    let s = bytes + tail;
    lemma_byte_weight_values();
    lemma_group_weight_values();
    match vt {
        ValueType::Double | ValueType::Fixed64 | ValueType::SFixed64 => {
            let u = unsigned_64(v) as nat;
            lemma_le_bytes_len(u, 8);
            lemma_le_value_of_bytes(u, 8);
            assert(s.take(8) =~= bytes);
        },
        ValueType::Float | ValueType::Fixed32 | ValueType::SFixed32 => {
            let u = unsigned_32(v) as nat;
            lemma_le_bytes_len(u, 4);
            lemma_le_value_of_bytes(u, 4);
            assert(s.take(4) =~= bytes);
        },
        ValueType::Int32 | ValueType::Int64 | ValueType::Enum(_) => {
            let u = unsigned_64(v) as nat;
            lemma_parse_of_encoding(u, tail);
            lemma_encoding_is_minimal(u, tail);
            lemma_varint_encoding_len(u, 10);
        },
        ValueType::UInt32 | ValueType::UInt64 | ValueType::Bool => {
            let u = v as nat;
            lemma_parse_of_encoding(u, tail);
            lemma_encoding_is_minimal(u, tail);
            lemma_varint_encoding_len(u, 10);
        },
        ValueType::SInt32 | ValueType::SInt64 => {
            let u = zigzag_encode(v) as nat;
            lemma_parse_of_encoding(u, tail);
            lemma_encoding_is_minimal(u, tail);
            lemma_varint_encoding_len(u, 10);
        },
        _ => {},
    }
}

} // verus!
