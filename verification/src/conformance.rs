//! Encoding followed by decoding gives the message back.
//!
//! A message value *conforms* to a schema where each of its values is of
//! the kind that the schema and the wire type of the value call for, is in
//! the range of its type, and is neither cut short nor invalid. The bytes
//! that a conforming value is encoded to are decoded to the value itself.

use vstd::prelude::*;

use crate::context::{ContextView, MessageInfoView, Multiplicity, ValueType};
use crate::decode::{FieldValueView, MessageValueView, UnknownValueView, ValueView};
use crate::format::{
    decode_body, decode_field, decode_fields, decode_typed, decode_unknown, delimited,
    field_encoding, fields_encoding, is_packable, length_delimited, message_encoding,
    packed_encoding, packed_parse, scalar_encoding, scalar_in_range, tag_encoding, value_payload,
    value_wire_type,
};
use crate::roundtrip::lemma_scalar_parse_of_encoding;
use crate::wire::{
    le_bytes, lemma_byte_weight_values, lemma_group_weight_values, lemma_le_bytes_len,
    lemma_le_value_of_bytes, lemma_parse_of_encoding, lemma_parse_varint_bounds,
    lemma_varint_encoding_len, parse_varint_u64, two_64, varint_encoding,
};

verus! {

/// Every one of the numbers is a value of the scalar type.
pub open spec fn items_in_range(vt: ValueType, items: Seq<int>) -> bool {
    forall|i: int| 0 <= i < items.len() ==> scalar_in_range(vt, #[trigger] items[i])
}

/// The value is one that is decoded by the wire type alone: a varint of at
/// most 64 bits, a fixed-width number, or a byte string.
pub open spec fn unknown_conforms(v: ValueView) -> bool {
    match v {
        ValueView::Unknown(UnknownValueView::Varint(x)) => x < two_64(),
        ValueView::Unknown(UnknownValueView::Fixed64(_)) => true,
        ValueView::Unknown(UnknownValueView::VariableLength(b)) => b.len() < two_64(),
        ValueView::Unknown(UnknownValueView::Fixed32(_)) => true,
        _ => false,
    }
}

/// The value is a single value of the declared type `vt`: a scalar in the
/// range of the type, a text, a byte string, or a message that conforms to
/// the schema of the message type.
pub open spec fn typed_conforms(ctx: ContextView, vt: ValueType, v: ValueView) -> bool
    decreases v, 0nat,
{
    match vt {
        ValueType::String => v is String && vstd::utf8::encode_utf8(v->String_0).len() < two_64(),
        ValueType::Bytes => v is Bytes && v->Bytes_0.len() < two_64(),
        ValueType::Message(m) => match v {
            ValueView::Message(inner) => {
                &&& inner.msg_ref == ctx.message(m).self_ref
                &&& inner.garbage is None
                &&& fields_conform(ctx, ctx.message(m), inner.fields)
                &&& message_encoding(inner).len() < two_64()
            },
            _ => false,
        },
        _ => match v {
            ValueView::Scalar(t, x) => t == vt && scalar_in_range(vt, x),
            _ => false,
        },
    }
}

/// The field conforms to the schema: its tag fits in 64 bits, and its value
/// is of the kind that the schema and its wire type call for.
pub open spec fn field_conforms(ctx: ContextView, schema: MessageInfoView, f: FieldValueView) -> bool
    decreases f, 1nat,
{
    let wire_type = value_wire_type(f.value);
    &&& wire_type < 8
    &&& f.number * 8 + wire_type < two_64()
    &&& match schema.field_by_number(f.number) {
        Some(d) => if d.multiplicity == Multiplicity::RepeatedPacked && wire_type == 2
            && is_packable(d.field_type) {
            match f.value {
                ValueView::Packed(vt, items) => vt == d.field_type && items_in_range(vt, items)
                    && packed_encoding(vt, items).len() < two_64(),
                _ => false,
            }
        } else if d.field_type.spec_wire_type() == wire_type {
            typed_conforms(ctx, d.field_type, f.value)
        } else {
            unknown_conforms(f.value)
        },
        None => unknown_conforms(f.value),
    }
}

/// Every one of the fields conforms to the schema.
pub open spec fn fields_conform(
    ctx: ContextView,
    schema: MessageInfoView,
    fields: Seq<FieldValueView>,
) -> bool
    decreases fields, 2nat,
{
    if fields.len() == 0 {
        true
    } else {
        field_conforms(ctx, schema, fields[0]) && fields_conform(ctx, schema, fields.skip(1))
    }
}

/// The message value conforms to the schema: it is a value of the message
/// of the schema, without garbage, whose fields conform.
pub open spec fn conforms(ctx: ContextView, schema: MessageInfoView, m: MessageValueView) -> bool {
    &&& m.msg_ref == schema.self_ref
    &&& m.garbage is None
    &&& fields_conform(ctx, schema, m.fields)
}

/// A varint of a number that fits in 64 bits is read back, whatever follows
/// it.
pub proof fn lemma_varint_read_back(n: nat, tail: Seq<u8>)
    requires
        n < two_64(),
    ensures
        parse_varint_u64(varint_encoding(n) + tail) == Some(
            (n as u64, varint_encoding(n).len()),
        ),
{
    lemma_group_weight_values();
    lemma_parse_of_encoding(n, tail);
    lemma_varint_encoding_len(n, 10);
}

/// A payload behind its length is read back, whatever follows it.
pub proof fn lemma_delimited_read_back(payload: Seq<u8>, tail: Seq<u8>)
    requires
        payload.len() < two_64(),
    ensures
        length_delimited(delimited(payload) + tail) == Some(
            (payload, delimited(payload).len()),
        ),
{
    let head = varint_encoding(payload.len());
    let s = delimited(payload) + tail;
    lemma_varint_read_back(payload.len(), payload + tail);
    assert(s =~= head + (payload + tail));
    assert(s.subrange(head.len() as int, (head.len() + payload.len()) as int) =~= payload);
}

/// The scalars of a packed array are read back from their encoding.
pub proof fn lemma_packed_read_back(vt: ValueType, items: Seq<int>)
    requires
        is_packable(vt),
        items_in_range(vt, items),
    ensures
        packed_parse(vt, packed_encoding(vt, items)) == Some(items),
    decreases items.len(),
{
    let s = packed_encoding(vt, items);
    if items.len() == 0 {
        assert(items =~= Seq::<int>::empty());
    } else {
        let first = scalar_encoding(vt, items[0]);
        let rest = packed_encoding(vt, items.skip(1));
        lemma_scalar_parse_of_encoding(vt, items[0], rest);
        assert(items_in_range(vt, items.skip(1))) by {
            assert forall|i: int| 0 <= i < items.skip(1).len() implies scalar_in_range(
                vt,
                #[trigger] items.skip(1)[i],
            ) by {
                assert(items.skip(1)[i] == items[i + 1]);
            }
        }
        lemma_packed_read_back(vt, items.skip(1));
        lemma_parse_varint_bounds(s);
        assert(s.skip(first.len() as int) =~= rest);
        assert(seq![items[0]] + items.skip(1) =~= items);
    }
}

/// A value that is decoded by the wire type alone is read back from its
/// encoding, whatever follows it.
pub proof fn lemma_unknown_read_back(v: ValueView, tail: Seq<u8>)
    requires
        unknown_conforms(v),
    ensures
        decode_unknown(value_wire_type(v), value_payload(v) + tail) == (
            v,
            value_payload(v).len(),
        ),
{
    lemma_byte_weight_values();
    let s = value_payload(v) + tail;
    match v {
        ValueView::Unknown(UnknownValueView::Varint(x)) => {
            lemma_varint_read_back(x as nat, tail);
        },
        ValueView::Unknown(UnknownValueView::Fixed64(x)) => {
            lemma_le_bytes_len(x as nat, 8);
            lemma_le_value_of_bytes(x as nat, 8);
            assert(s.take(8) =~= le_bytes(x as nat, 8));
        },
        ValueView::Unknown(UnknownValueView::VariableLength(b)) => {
            lemma_delimited_read_back(b, tail);
        },
        ValueView::Unknown(UnknownValueView::Fixed32(x)) => {
            lemma_le_bytes_len(x as nat, 4);
            lemma_le_value_of_bytes(x as nat, 4);
            assert(s.take(4) =~= le_bytes(x as nat, 4));
        },
        _ => {},
    }
}

/// A single value of a declared type is read back from its encoding,
/// whatever follows it.
pub proof fn lemma_typed_read_back(ctx: ContextView, vt: ValueType, v: ValueView, tail: Seq<u8>)
    requires
        typed_conforms(ctx, vt, v),
    ensures
        decode_typed(ctx, vt, value_wire_type(v), value_payload(v) + tail) == (
            v,
            value_payload(v).len(),
        ),
        value_wire_type(v) == vt.spec_wire_type(),
    decreases v, 0nat,
{
    match vt {
        ValueType::String => {
            let text = v->String_0;
            let bytes = vstd::utf8::encode_utf8(text);
            vstd::utf8::encode_utf8_valid_utf8(text);
            vstd::utf8::encode_utf8_decode_utf8(text);
            lemma_delimited_read_back(bytes, tail);
        },
        ValueType::Bytes => {
            lemma_delimited_read_back(v->Bytes_0, tail);
        },
        ValueType::Message(m) => {
            let inner = v->Message_0;
            lemma_fields_read_back(ctx, ctx.message(m), inner.fields);
            assert(message_encoding(inner) =~= fields_encoding(inner.fields));
            lemma_delimited_read_back(message_encoding(inner), tail);
        },
        _ => {
            lemma_scalar_parse_of_encoding(vt, v->Scalar_1, tail);
        },
    }
}

/// A field that conforms to the schema is read back from its encoding,
/// whatever follows it.
pub proof fn lemma_field_read_back(
    ctx: ContextView,
    schema: MessageInfoView,
    f: FieldValueView,
    tail: Seq<u8>,
)
    requires
        field_conforms(ctx, schema, f),
    ensures
        decode_field(
            ctx,
            schema,
            f.number,
            value_wire_type(f.value),
            value_payload(f.value) + tail,
        ) == (f.value, value_payload(f.value).len()),
    decreases f, 1nat,
{
    let wire_type = value_wire_type(f.value);
    match schema.field_by_number(f.number) {
        Some(d) => {
            if d.multiplicity == Multiplicity::RepeatedPacked && wire_type == 2 && is_packable(
                d.field_type,
            ) {
                let items = f.value->Packed_1;
                lemma_packed_read_back(d.field_type, items);
                lemma_delimited_read_back(packed_encoding(d.field_type, items), tail);
            } else if d.field_type.spec_wire_type() == wire_type {
                lemma_typed_read_back(ctx, d.field_type, f.value, tail);
            } else {
                lemma_unknown_read_back(f.value, tail);
            }
        },
        None => {
            lemma_unknown_read_back(f.value, tail);
        },
    }
}

/// Fields that conform to the schema are read back from their encoding,
/// without garbage.
pub proof fn lemma_fields_read_back(
    ctx: ContextView,
    schema: MessageInfoView,
    fields: Seq<FieldValueView>,
)
    requires
        fields_conform(ctx, schema, fields),
    ensures
        decode_fields(ctx, schema, fields_encoding(fields)) == (fields, None::<Seq<u8>>),
    decreases fields, 2nat,
{
    if fields.len() == 0 {
        assert(fields =~= Seq::<FieldValueView>::empty());
    } else {
        let f = fields[0];
        let wire_type = value_wire_type(f.value);
        let tag = (f.number * 8 + wire_type) as nat;
        let head = tag_encoding(f.number, wire_type);
        let payload = value_payload(f.value);
        let behind = fields_encoding(fields.skip(1));
        let s = fields_encoding(fields);
        assert(field_conforms(ctx, schema, f));
        assert(fields_conform(ctx, schema, fields.skip(1)));
        assert(field_encoding(f) == head + payload);
        assert(s == field_encoding(f) + behind);
        assert(s =~= head + (payload + behind));
        lemma_varint_read_back(tag, payload + behind);
        crate::wire::lemma_varint_encoding_shape(tag);
        assert(tag < two_64());
        assert(tag as u64 / 8 == f.number && (tag as u64 % 8) as u8 == wire_type);
        let rest = s.skip(head.len() as int);
        assert(rest =~= payload + behind);
        lemma_field_read_back(ctx, schema, f, behind);
        assert(rest.skip(payload.len() as int) =~= behind);
        lemma_fields_read_back(ctx, schema, fields.skip(1));
        assert(seq![f] + fields.skip(1) =~= fields);
    }
}

/// Encoding and decoding: the bytes that a message value that conforms to
/// a schema is encoded to are decoded, under that schema, to the value
/// itself.
pub proof fn lemma_encode_decode(ctx: ContextView, schema: MessageInfoView, m: MessageValueView)
    requires
        conforms(ctx, schema, m),
    ensures
        decode_body(ctx, schema, message_encoding(m)) == m,
{
    assert(message_encoding(m) =~= fields_encoding(m.fields));
    lemma_fields_read_back(ctx, schema, m.fields);
}

} // verus!
