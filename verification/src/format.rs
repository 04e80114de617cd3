//! The wire format as mathematics: what a byte sequence decodes to under a
//! schema, and what a decoded value encodes to.
//!
//! Decoding never fails. What cannot be read as the schema says is kept as an
//! unknown, incomplete or invalid value that holds the bytes it stands for.

use vstd::prelude::*;

use crate::context::{ContextView, MessageInfoView, MessageRef, Multiplicity, ValueType};
use crate::decode::{FieldValueView, MessageValueView, UnknownValueView, ValueView};
use crate::text::lossy_text;
use crate::wire::{
    le_bytes, le_value, lemma_parse_varint_bounds, parse_varint_u64, signed_32, signed_64, two_32,
    two_64, unsigned_32, unsigned_64, varint_encoding, zigzag_decode, zigzag_encode,
};

verus! {

/// The types whose values a packed array can hold.
pub open spec fn is_packable(vt: ValueType) -> bool {
    !(vt is String || vt is Bytes || vt is Message || vt is Enum)
}

/// The numbers that are values of a scalar type. A `double` or `float` is
/// held as its bit pattern, a `bool` as 0 or 1, an enum as its number.
pub open spec fn scalar_in_range(vt: ValueType, v: int) -> bool {
    match vt {
        ValueType::Double | ValueType::Fixed64 | ValueType::UInt64 => 0 <= v < two_64(),
        ValueType::Float | ValueType::Fixed32 | ValueType::UInt32 => 0 <= v < two_32(),
        ValueType::Int32 | ValueType::SInt32 | ValueType::SFixed32 => -0x8000_0000 <= v
            < 0x8000_0000,
        ValueType::Int64 | ValueType::SInt64 | ValueType::SFixed64 | ValueType::Enum(_) =>
            -0x8000_0000_0000_0000 <= v < 0x8000_0000_0000_0000,
        ValueType::Bool => v == 0 || v == 1,
        _ => false,
    }
}

/// The value of a varint-coded scalar type that the 64-bit number `u` stands
/// for; `None` where it is out of the type's range.
pub open spec fn varint_scalar(vt: ValueType, u: int) -> Option<int> {
    match vt {
        ValueType::Int32 => if scalar_in_range(vt, signed_64(u)) {
            Some(signed_64(u))
        } else {
            None
        },
        ValueType::Int64 | ValueType::Enum(_) => Some(signed_64(u)),
        ValueType::UInt32 => if u < two_32() {
            Some(u)
        } else {
            None
        },
        ValueType::UInt64 => Some(u),
        ValueType::SInt32 => if u < two_32() {
            Some(zigzag_decode(u))
        } else {
            None
        },
        ValueType::SInt64 => Some(zigzag_decode(u)),
        ValueType::Bool => Some(
            if u != 0 {
                1
            } else {
                0
            },
        ),
        _ => None,
    }
}

/// Reads one scalar of type `vt` from the front of `s`: its value and the
/// number of bytes it occupies.
pub open spec fn scalar_parse(vt: ValueType, s: Seq<u8>) -> Option<(int, nat)> {
    match vt {
        ValueType::Double | ValueType::Fixed64 => if s.len() >= 8 {
            Some((le_value(s.take(8)) as int, 8nat))
        } else {
            None
        },
        ValueType::SFixed64 => if s.len() >= 8 {
            Some((signed_64(le_value(s.take(8)) as int), 8nat))
        } else {
            None
        },
        ValueType::Float | ValueType::Fixed32 => if s.len() >= 4 {
            Some((le_value(s.take(4)) as int, 4nat))
        } else {
            None
        },
        ValueType::SFixed32 => if s.len() >= 4 {
            Some((signed_32(le_value(s.take(4)) as int), 4nat))
        } else {
            None
        },
        ValueType::String | ValueType::Bytes | ValueType::Message(_) => None,
        _ => match parse_varint_u64(s) {
            Some((u, n)) => match varint_scalar(vt, u as int) {
                Some(v) => Some((v, n)),
                None => None,
            },
            None => None,
        },
    }
}

/// The bytes of one scalar of type `vt`.
pub open spec fn scalar_encoding(vt: ValueType, v: int) -> Seq<u8> {
    match vt {
        ValueType::Double | ValueType::Fixed64 | ValueType::SFixed64 => le_bytes(
            unsigned_64(v) as nat,
            8,
        ),
        ValueType::Float | ValueType::Fixed32 | ValueType::SFixed32 => le_bytes(
            unsigned_32(v) as nat,
            4,
        ),
        ValueType::Int32 | ValueType::Int64 | ValueType::Enum(_) => varint_encoding(
            unsigned_64(v) as nat,
        ),
        ValueType::UInt32 | ValueType::UInt64 | ValueType::Bool => varint_encoding(v as nat),
        ValueType::SInt32 | ValueType::SInt64 => varint_encoding(zigzag_encode(v) as nat),
        _ => Seq::<u8>::empty(),
    }
}

/// Reads scalars of type `vt` until `s` is used up; `None` where one of them
/// cannot be read.
pub open spec fn packed_parse(vt: ValueType, s: Seq<u8>) -> Option<Seq<int>>
    decreases s.len(),
{
    if s.len() == 0 {
        Some(Seq::<int>::empty())
    } else {
        match scalar_parse(vt, s) {
            Some((v, n)) => {
                proof {
                    lemma_parse_varint_bounds(s);
                }
                match packed_parse(vt, s.skip(n as int)) {
                    Some(rest) => Some(seq![v] + rest),
                    None => None,
                }
            },
            None => None,
        }
    }
}

/// The scalars of a packed array, one after the other.
pub open spec fn packed_encoding(vt: ValueType, items: Seq<int>) -> Seq<u8>
    decreases items.len(),
{
    if items.len() == 0 {
        Seq::<u8>::empty()
    } else {
        scalar_encoding(vt, items[0]) + packed_encoding(vt, items.skip(1))
    }
}

/// A payload behind the varint of its length.
pub open spec fn delimited(payload: Seq<u8>) -> Seq<u8> {
    varint_encoding(payload.len()) + payload
}

/// Reads a length-delimited payload from the front of `s`: the payload and
/// the number of bytes that the length and the payload occupy together.
/// `None` where the length cannot be read or exceeds what is left.
pub open spec fn length_delimited(s: Seq<u8>) -> Option<(Seq<u8>, nat)> {
    match parse_varint_u64(s) {
        Some((len, n)) => if n + len <= s.len() {
            Some((s.subrange(n as int, n + len), (n + len) as nat))
        } else {
            None
        },
        None => None,
    }
}

/// A value cut short: it keeps its wire type and all the bytes that were left.
pub open spec fn incomplete(wire_type: u8, s: Seq<u8>) -> (ValueView, nat) {
    (ValueView::Incomplete(wire_type, s), s.len())
}

/// Decodes a value of which only the wire type is known. The result is the
/// value and the number of bytes it occupies.
pub open spec fn decode_unknown(wire_type: u8, s: Seq<u8>) -> (ValueView, nat) {
    if wire_type == 0 {
        match parse_varint_u64(s) {
            Some((v, n)) => (ValueView::Unknown(UnknownValueView::Varint(v as u128)), n),
            None => incomplete(wire_type, s),
        }
    } else if wire_type == 1 {
        if s.len() >= 8 {
            (ValueView::Unknown(UnknownValueView::Fixed64(le_value(s.take(8)) as u64)), 8)
        } else {
            incomplete(wire_type, s)
        }
    } else if wire_type == 2 {
        match length_delimited(s) {
            Some((payload, n)) => (
                ValueView::Unknown(UnknownValueView::VariableLength(payload)),
                n,
            ),
            None => incomplete(wire_type, s),
        }
    } else if wire_type == 5 {
        if s.len() >= 4 {
            (ValueView::Unknown(UnknownValueView::Fixed32(le_value(s.take(4)) as u32)), 4)
        } else {
            incomplete(wire_type, s)
        }
    } else {
        (ValueView::Unknown(UnknownValueView::Invalid(wire_type, s)), s.len())
    }
}

/// Decodes a packed array of scalars of type `vt`. Where the length or the
/// payload is cut short the value is incomplete and holds all that was left;
/// where an element cannot be read it is incomplete and holds the length and
/// the payload.
pub open spec fn decode_packed(vt: ValueType, wire_type: u8, s: Seq<u8>) -> (ValueView, nat) {
    match length_delimited(s) {
        Some((payload, n)) => match packed_parse(vt, payload) {
            Some(items) => (ValueView::Packed(vt, items), n),
            None => (ValueView::Incomplete(wire_type, s.take(n as int)), n),
        },
        None => incomplete(wire_type, s),
    }
}

/// Decodes a single value of the declared type `vt`.
pub open spec fn decode_typed(ctx: ContextView, vt: ValueType, wire_type: u8, s: Seq<u8>) -> (
    ValueView,
    nat,
)
    decreases s.len(), 0nat,
{
    match vt {
        ValueType::String => match length_delimited(s) {
            Some((payload, n)) => (ValueView::String(lossy_text(payload)), n),
            None => incomplete(wire_type, s),
        },
        ValueType::Bytes => match length_delimited(s) {
            Some((payload, n)) => (ValueView::Bytes(payload), n),
            None => incomplete(wire_type, s),
        },
        ValueType::Message(m) => match length_delimited(s) {
            Some((payload, n)) => {
                proof {
                    lemma_parse_varint_bounds(s);
                }
                (ValueView::Message(decode_message(ctx, m, payload)), n)
            },
            None => incomplete(wire_type, s),
        },
        _ => match scalar_parse(vt, s) {
            Some((v, n)) => (ValueView::Scalar(vt, v), n),
            None => incomplete(wire_type, s),
        },
    }
}

/// Decodes the value of one field from what follows its tag.
///
/// A packed field of a packable type with the length-delimited wire type is
/// a packed array. Otherwise a known field with the wire type of its declared
/// type is a single value of that type. Anything else is an unknown value.
pub open spec fn decode_field(
    ctx: ContextView,
    schema: MessageInfoView,
    number: u64,
    wire_type: u8,
    s: Seq<u8>,
) -> (ValueView, nat)
    decreases s.len(), 1nat,
{
    match schema.field_by_number(number) {
        Some(f) => if f.multiplicity == Multiplicity::RepeatedPacked && wire_type == 2
            && is_packable(f.field_type) {
            decode_packed(f.field_type, wire_type, s)
        } else if f.field_type.spec_wire_type() == wire_type {
            decode_typed(ctx, f.field_type, wire_type, s)
        } else {
            decode_unknown(wire_type, s)
        },
        None => decode_unknown(wire_type, s),
    }
}

/// Decodes a message body: the fields in the order of the stream, and the
/// bytes left over where a tag cannot be read.
///
/// A value never occupies more bytes than there are (see
/// [`lemma_decode_field_bounds`]), so the branch that guards against it is
/// never taken.
pub open spec fn decode_fields(ctx: ContextView, schema: MessageInfoView, s: Seq<u8>) -> (
    Seq<FieldValueView>,
    Option<Seq<u8>>,
)
    decreases s.len(), 2nat,
{
    if s.len() == 0 {
        (Seq::<FieldValueView>::empty(), None)
    } else {
        match parse_varint_u64(s) {
            Some((tag, n)) => {
                proof {
                    lemma_parse_varint_bounds(s);
                }
                let rest = s.skip(n as int);
                let (value, used) = decode_field(ctx, schema, tag / 8, (tag % 8) as u8, rest);
                if used <= rest.len() {
                    let (fields, garbage) = decode_fields(ctx, schema, rest.skip(used as int));
                    (seq![FieldValueView { number: tag / 8, value }] + fields, garbage)
                } else {
                    (Seq::<FieldValueView>::empty(), Some(s))
                }
            },
            None => (Seq::<FieldValueView>::empty(), Some(s)),
        }
    }
}

/// Decodes a message body under the schema of the message that `m` points at.
pub open spec fn decode_message(ctx: ContextView, m: MessageRef, s: Seq<u8>) -> MessageValueView
    decreases s.len(), 4nat,
{
    decode_body(ctx, ctx.message(m), s)
}

/// Decodes a message body under the given schema.
pub open spec fn decode_body(ctx: ContextView, schema: MessageInfoView, s: Seq<u8>) -> MessageValueView
    decreases s.len(), 3nat,
{
    let (fields, garbage) = decode_fields(ctx, schema, s);
    MessageValueView { msg_ref: schema.self_ref, fields, garbage }
}

/// The wire type under which a value is encoded.
pub open spec fn value_wire_type(v: ValueView) -> u8 {
    match v {
        ValueView::Scalar(vt, _) => vt.spec_wire_type(),
        ValueView::String(_) => 2,
        ValueView::Bytes(_) => 2,
        ValueView::Packed(_, _) => 2,
        ValueView::Message(_) => 2,
        ValueView::Incomplete(wire_type, _) => wire_type,
        ValueView::Unknown(u) => match u {
            UnknownValueView::Varint(_) => 0,
            UnknownValueView::Fixed64(_) => 1,
            UnknownValueView::VariableLength(_) => 2,
            UnknownValueView::Fixed32(_) => 5,
            UnknownValueView::Invalid(wire_type, _) => wire_type,
        },
    }
}

/// The bytes of an unknown value, without its tag.
pub open spec fn unknown_payload(u: UnknownValueView) -> Seq<u8> {
    match u {
        UnknownValueView::Varint(v) => varint_encoding(v as nat),
        UnknownValueView::Fixed64(v) => le_bytes(v as nat, 8),
        UnknownValueView::VariableLength(b) => delimited(b),
        UnknownValueView::Fixed32(v) => le_bytes(v as nat, 4),
        UnknownValueView::Invalid(_, raw) => raw,
    }
}

/// The bytes of a value, without its tag.
pub open spec fn value_payload(v: ValueView) -> Seq<u8>
    decreases v,
{
    match v {
        ValueView::Scalar(vt, x) => scalar_encoding(vt, x),
        ValueView::String(s) => delimited(vstd::utf8::encode_utf8(s)),
        ValueView::Bytes(b) => delimited(b),
        ValueView::Packed(vt, items) => delimited(packed_encoding(vt, items)),
        ValueView::Message(m) => delimited(message_encoding(m)),
        ValueView::Incomplete(_, raw) => raw,
        ValueView::Unknown(u) => unknown_payload(u),
    }
}

/// The tag of a field: its number and wire type in one varint.
pub open spec fn tag_encoding(number: u64, wire_type: u8) -> Seq<u8> {
    varint_encoding((number * 8 + wire_type) as nat)
}

/// The bytes of one field: its tag and its value.
pub open spec fn field_encoding(f: FieldValueView) -> Seq<u8>
    decreases f,
{
    tag_encoding(f.number, value_wire_type(f.value)) + value_payload(f.value)
}

/// The bytes of a list of fields, in the order of the list.
pub open spec fn fields_encoding(fields: Seq<FieldValueView>) -> Seq<u8>
    decreases fields,
{
    if fields.len() == 0 {
        Seq::<u8>::empty()
    } else {
        field_encoding(fields[0]) + fields_encoding(fields.skip(1))
    }
}

/// The bytes that were left over behind the last field of a message; none
/// where there is no garbage.
pub open spec fn garbage_bytes(garbage: Option<Seq<u8>>) -> Seq<u8> {
    match garbage {
        Some(bytes) => bytes,
        None => Seq::<u8>::empty(),
    }
}

/// The bytes of a message: those of its fields, in the order of the list,
/// and behind them the garbage, as it was found.
pub open spec fn message_encoding(m: MessageValueView) -> Seq<u8>
    decreases m,
{
    fields_encoding(m.fields) + garbage_bytes(m.garbage)
}

/// A value never occupies more bytes than there are.
pub proof fn lemma_decode_field_bounds(
    ctx: ContextView,
    schema: MessageInfoView,
    number: u64,
    wire_type: u8,
    s: Seq<u8>,
)
    ensures
        decode_field(ctx, schema, number, wire_type, s).1 <= s.len(),
{
    lemma_parse_varint_bounds(s);
}

/// Truncated message, at the tag: where bytes are left and no tag can be
/// read from them, no field is decoded and all of them are the garbage.
pub proof fn lemma_truncated_tag(ctx: ContextView, schema: MessageInfoView, s: Seq<u8>)
    requires
        s.len() > 0,
        parse_varint_u64(s) is None,
    ensures
        decode_fields(ctx, schema, s) == (Seq::<FieldValueView>::empty(), Some(s)),
{
}

/// Truncated message, in general: the garbage of a message is the end of
/// its bytes, from the first place behind a field where a tag could not be
/// read. It is never empty.
pub proof fn lemma_garbage_is_suffix(ctx: ContextView, schema: MessageInfoView, s: Seq<u8>)
    ensures
        match decode_fields(ctx, schema, s).1 {
            Some(g) => 0 < g.len() <= s.len() && g == s.skip(s.len() - g.len())
                && parse_varint_u64(g) is None,
            None => true,
        },
    decreases s.len(),
{
    if s.len() > 0 {
        match parse_varint_u64(s) {
            Some((tag, n)) => {
                lemma_parse_varint_bounds(s);
                let rest = s.skip(n as int);
                let used = decode_field(ctx, schema, tag / 8, (tag % 8) as u8, rest).1;
                lemma_decode_field_bounds(ctx, schema, tag / 8, (tag % 8) as u8, rest);
                let tail = rest.skip(used as int);
                lemma_garbage_is_suffix(ctx, schema, tail);
                match decode_fields(ctx, schema, tail).1 {
                    Some(g) => {
                        assert(tail.skip(tail.len() - g.len()) =~= s.skip(s.len() - g.len()));
                    },
                    None => {},
                }
            },
            None => {
                assert(s.skip(0) =~= s);
            },
        }
    }
}

/// A value that is cut short still belongs to a field: the field that its
/// tag names holds it, with the wire type of the tag and all the bytes that
/// were left.
pub proof fn lemma_incomplete_keeps_tag(wire_type: u8, s: Seq<u8>)
    ensures
        incomplete(wire_type, s).0 == ValueView::Incomplete(wire_type, s),
        value_wire_type(incomplete(wire_type, s).0) == wire_type,
        value_payload(incomplete(wire_type, s).0) == s,
{
}

/// The value that a field decodes to carries the wire type of its tag,
/// whatever the schema says of the field and however the value is written.
pub proof fn lemma_decoded_wire_type(
    ctx: ContextView,
    schema: MessageInfoView,
    number: u64,
    wire_type: u8,
    s: Seq<u8>,
)
    ensures
        value_wire_type(decode_field(ctx, schema, number, wire_type, s).0) == wire_type,
{
}

/// Unknown field survival: a field whose number the schema does not have is
/// decoded by its wire type alone. The value is unknown, or incomplete where
/// it is cut short, and carries the wire type of its tag.
pub proof fn lemma_unknown_field(
    ctx: ContextView,
    schema: MessageInfoView,
    number: u64,
    wire_type: u8,
    s: Seq<u8>,
)
    requires
        schema.field_by_number(number) is None,
    ensures
        decode_field(ctx, schema, number, wire_type, s) == decode_unknown(wire_type, s),
        decode_unknown(wire_type, s).0 is Unknown || decode_unknown(wire_type, s).0 is Incomplete,
        value_wire_type(decode_unknown(wire_type, s).0) == wire_type,
{
}

/// Packed and unpacked fields: a packed field of a packable type with the
/// length-delimited wire type is decoded as a packed array; a field that is
/// not packed, with the wire type of its declared type, is decoded as a
/// single value of that type.
pub proof fn lemma_packed_or_single(
    ctx: ContextView,
    schema: MessageInfoView,
    number: u64,
    wire_type: u8,
    s: Seq<u8>,
)
    requires
        schema.field_by_number(number) is Some,
    ensures
        ({
            let f = schema.field_by_number(number).unwrap();
            &&& f.multiplicity == Multiplicity::RepeatedPacked && is_packable(f.field_type)
                && wire_type == 2 ==> decode_field(ctx, schema, number, wire_type, s)
                == decode_packed(f.field_type, wire_type, s)
            &&& f.multiplicity != Multiplicity::RepeatedPacked && wire_type
                == f.field_type.spec_wire_type() ==> decode_field(
                ctx,
                schema,
                number,
                wire_type,
                s,
            ) == decode_typed(ctx, f.field_type, wire_type, s)
        }),
{
}

/// Zig-zag: a `sint32` or `sint64` value is encoded as the plain varint of
/// its zig-zag number, which is how an `int64` of that number is encoded.
pub proof fn lemma_zigzag_encoding(v: int)
    requires
        -0x4000_0000_0000_0000 <= v < 0x4000_0000_0000_0000,
    ensures
        scalar_encoding(ValueType::SInt64, v) == scalar_encoding(
            ValueType::Int64,
            zigzag_encode(v),
        ),
        scalar_encoding(ValueType::SInt32, v) == scalar_encoding(
            ValueType::Int32,
            zigzag_encode(v),
        ),
        zigzag_encode(0) == 0 && zigzag_encode(-1) == 1 && zigzag_encode(1) == 2 && zigzag_encode(
            -2,
        ) == 3 && zigzag_encode(2) == 4,
{
}

/// A varint that ends within the first `k` bytes is read from them as it is
/// from all the bytes.
pub proof fn lemma_varint_stable(s: Seq<u8>, k: int)
    requires
        parse_varint_u64(s) is Some,
        parse_varint_u64(s)->Some_0.1 <= k <= s.len(),
    ensures
        parse_varint_u64(s.take(k)) == parse_varint_u64(s),
{
    lemma_parse_varint_bounds(s);
    let n = parse_varint_u64(s)->Some_0.1 as int;
    assert(s.take(k).take(n) =~= s.take(n));
    crate::wire::lemma_parse_varint_prefix(s, s.take(k));
}

/// A length-delimited payload that ends within the first `k` bytes is read
/// from them as it is from all the bytes.
pub proof fn lemma_length_delimited_stable(s: Seq<u8>, k: int)
    requires
        length_delimited(s) is Some,
        length_delimited(s)->Some_0.1 <= k <= s.len(),
    ensures
        length_delimited(s.take(k)) == length_delimited(s),
{
    lemma_parse_varint_bounds(s);
    let (len, n) = parse_varint_u64(s)->Some_0;
    lemma_varint_stable(s, k);
    assert(s.take(k).subrange(n as int, n + len) =~= s.subrange(n as int, n + len));
}

/// A scalar that ends within the first `k` bytes is read from them as it is
/// from all the bytes.
pub proof fn lemma_scalar_stable(vt: ValueType, s: Seq<u8>, k: int)
    requires
        scalar_parse(vt, s) is Some,
        scalar_parse(vt, s)->Some_0.1 <= k <= s.len(),
    ensures
        scalar_parse(vt, s.take(k)) == scalar_parse(vt, s),
{
    lemma_parse_varint_bounds(s);
    match vt {
        ValueType::Double | ValueType::Fixed64 | ValueType::SFixed64 => {
            assert(s.take(k).take(8) =~= s.take(8));
        },
        ValueType::Float | ValueType::Fixed32 | ValueType::SFixed32 => {
            assert(s.take(k).take(4) =~= s.take(4));
        },
        ValueType::String | ValueType::Bytes | ValueType::Message(_) => {},
        _ => {
            lemma_varint_stable(s, k);
        },
    }
}

/// A value that does not reach the end of the bytes is decoded from its own
/// bytes alone: it is the same value where what follows it is cut off, at
/// any place behind it.
pub proof fn lemma_decode_field_stable(
    ctx: ContextView,
    schema: MessageInfoView,
    number: u64,
    wire_type: u8,
    s: Seq<u8>,
    k: int,
)
    requires
        decode_field(ctx, schema, number, wire_type, s).1 < s.len(),
        decode_field(ctx, schema, number, wire_type, s).1 <= k <= s.len(),
    ensures
        decode_field(ctx, schema, number, wire_type, s.take(k)) == decode_field(
            ctx,
            schema,
            number,
            wire_type,
            s,
        ),
{
    lemma_parse_varint_bounds(s);
    let t = s.take(k);
    if parse_varint_u64(s) is Some && parse_varint_u64(s)->Some_0.1 <= k {
        lemma_varint_stable(s, k);
    }
    if length_delimited(s) is Some && length_delimited(s)->Some_0.1 <= k {
        lemma_length_delimited_stable(s, k);
        assert(t.take(length_delimited(s)->Some_0.1 as int) =~= s.take(
            length_delimited(s)->Some_0.1 as int,
        ));
    }
    if s.len() >= 8 && 8 <= k {
        assert(t.take(8) =~= s.take(8));
    }
    if s.len() >= 4 && 4 <= k {
        assert(t.take(4) =~= s.take(4));
    }
    match schema.field_by_number(number) {
        Some(f) => {
            if scalar_parse(f.field_type, s) is Some && scalar_parse(f.field_type, s)->Some_0.1
                <= k {
                lemma_scalar_stable(f.field_type, s, k);
            }
        },
        None => {},
    }
}

/// Truncated message, the fields: where a message ends in garbage, its
/// fields are those of the bytes before the garbage, which decode without
/// any.
pub proof fn lemma_fields_before_garbage(ctx: ContextView, schema: MessageInfoView, s: Seq<u8>)
    requires
        decode_fields(ctx, schema, s).1 is Some,
    ensures
        ({
            let g = decode_fields(ctx, schema, s).1->Some_0;
            g.len() <= s.len() && decode_fields(ctx, schema, s.take(s.len() - g.len())) == (
                decode_fields(ctx, schema, s).0,
                None::<Seq<u8>>,
            )
        }),
    decreases s.len(),
{
    lemma_garbage_is_suffix(ctx, schema, s);
    let g = decode_fields(ctx, schema, s).1->Some_0;
    let cut = s.len() - g.len();
    match parse_varint_u64(s) {
        Some((tag, n)) => {
            lemma_parse_varint_bounds(s);
            let number = tag / 8;
            let wire_type = (tag % 8) as u8;
            let rest = s.skip(n as int);
            let (value, used) = decode_field(ctx, schema, number, wire_type, rest);
            lemma_decode_field_bounds(ctx, schema, number, wire_type, rest);
            let tail = rest.skip(used as int);
            lemma_garbage_is_suffix(ctx, schema, tail);
            lemma_fields_before_garbage(ctx, schema, tail);
            // The garbage lies behind the value, so the value ends before it.
            let before = s.take(cut);
            lemma_varint_stable(s, cut);
            assert(before.skip(n as int) =~= rest.take(cut - n));
            lemma_decode_field_stable(ctx, schema, number, wire_type, rest, cut - n);
            assert(rest.take(cut - n).skip(used as int) =~= tail.take(tail.len() - g.len()));
        },
        None => {
            assert(s.take(0).len() == 0);
        },
    }
}

} // verus!
