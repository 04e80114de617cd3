//! Protocol buffer binary payload decoding and encoding.
//!
//! A payload is decoded against a message of a [`Context`] into a tree of
//! values. Nothing makes decoding fail: what does not fit the schema is kept
//! as data. Each function here is proved to compute what the functions of
//! [`crate::format`] say.

use bytes::{Bytes, BytesMut};

use vstd::prelude::*;

use crate::buffer::{bytes_content, bytes_mut_content};
use crate::context::{Context, EnumRef, MessageInfo, MessageRef, Multiplicity, ValueType};
use crate::format::{
    decode_body, decode_field, decode_fields, decode_message, decode_packed, decode_typed,
    decode_unknown, delimited, field_encoding, fields_encoding, is_packable, length_delimited,
    message_encoding, packed_encoding, packed_parse, scalar_encoding, scalar_in_range, scalar_parse,
    unknown_payload, value_payload, value_wire_type, varint_scalar,
};
use crate::search::lemma_first_match;
use crate::text::lossy_string;
use crate::wire::{
    le_bytes, le_value, lemma_byte_weight_values, lemma_le_value_bound, lemma_parse_varint_bounds,
    parse_varint_u64, read_le, read_varint, to_signed_32, to_signed_64, to_unsigned_32,
    to_unsigned_64, varint_encoding, write_le, write_varint, zigzag_from_signed,
    zigzag_to_signed,
};

verus! {

/// Decoded protocol buffer value.
#[derive(Debug, PartialEq)]
pub enum Value {
    /// `double` value, held as the bit pattern of the 64-bit IEEE 754 number.
    Double(u64),
    /// `float` value, held as the bit pattern of the 32-bit IEEE 754 number.
    Float(u32),
    /// `int32` value.
    Int32(i32),
    /// `int64` value.
    Int64(i64),
    /// `uint32` value.
    UInt32(u32),
    /// `uint64` value.
    UInt64(u64),
    /// `sint32` value.
    SInt32(i32),
    /// `sint64` value.
    SInt64(i64),
    /// `fixed32` value.
    Fixed32(u32),
    /// `fixed64` value.
    Fixed64(u64),
    /// `sfixed32` value.
    SFixed32(i32),
    /// `sfixed64` value.
    SFixed64(i64),
    /// `bool` value.
    Bool(bool),
    /// `string` value.
    String(String),
    /// `bytes` value.
    Bytes(Bytes),
    /// A repeated packed value.
    Packed(PackedArray),
    /// Message type value.
    Message(Box<MessageValue>),
    /// Enum type value.
    Enum(EnumValue),
    /// Value which was incomplete due to missing bytes in the payload.
    Incomplete(u8, Bytes),
    /// Value which wasn't defined in the context.
    ///
    /// The wire type allows the decoder to tell how large an unknown value is. This allows the
    /// unknown value to be skipped and decoding can continue from the next value.
    Unknown(UnknownValue),
}

/// Packed scalar fields.
#[derive(Debug, PartialEq)]
pub enum PackedArray {
    /// `double` values, as bit patterns.
    Double(Vec<u64>),
    /// `float` values, as bit patterns.
    Float(Vec<u32>),
    /// `int32` value.
    Int32(Vec<i32>),
    /// `int64` value.
    Int64(Vec<i64>),
    /// `uint32` value.
    UInt32(Vec<u32>),
    /// `uint64` value.
    UInt64(Vec<u64>),
    /// `sint32` value.
    SInt32(Vec<i32>),
    /// `sint64` value.
    SInt64(Vec<i64>),
    /// `fixed32` value.
    Fixed32(Vec<u32>),
    /// `fixed64` value.
    Fixed64(Vec<u64>),
    /// `sfixed32` value.
    SFixed32(Vec<i32>),
    /// `sfixed64` value.
    SFixed64(Vec<i64>),
    /// `bool` value.
    Bool(Vec<bool>),
}

/// Unknown value.
#[derive(Debug, PartialEq)]
pub enum UnknownValue {
    /// Unknown varint (wire type = 0).
    Varint(u128),
    /// Unknown 64-bit value (wire type = 1).
    Fixed64(u64),
    /// Unknown variable length value (wire type = 2).
    VariableLength(Bytes),
    /// Unknown 32-bit value (wire type = 5).
    Fixed32(u32),
    /// Invalid value.
    ///
    /// Invalid value is a value for which the wire type wasn't valid. Encountering invalid wire
    /// type will result in the remaining bytes to be consumed from the current variable length
    /// stream as it is imposible to tell how large such invalid value is.
    ///
    /// The decoding will continue after the current variable length value.
    Invalid(u8, Bytes),
}

/// Enum value.
#[derive(Debug, PartialEq)]
pub struct EnumValue {
    /// Reference to the enum type.
    pub enum_ref: EnumRef,
    /// Value.
    pub value: i64,
}

/// Message value.
#[derive(Debug, PartialEq)]
pub struct MessageValue {
    /// Reference to the message type.
    pub msg_ref: MessageRef,
    /// Mesage field values.
    pub fields: Vec<FieldValue>,
    /// Garbage data at the end of the message.
    ///
    /// As opposed to an `UnknownValue::Invalid`, the garbage data did not have a valid field
    /// number and for that reason cannot be placed into the `fields` vector.
    pub garbage: Option<Bytes>,
}

/// Field value.
#[derive(Debug, PartialEq)]
pub struct FieldValue {
    /// Field number.
    pub number: u64,
    /// Field value.
    pub value: Value,
}

/// The view of an [`UnknownValue`].
pub enum UnknownValueView {
    Varint(u128),
    Fixed64(u64),
    VariableLength(Seq<u8>),
    Fixed32(u32),
    Invalid(u8, Seq<u8>),
}

/// The view of a [`Value`]. A value of one of the scalar types is its type
/// and its number; a packed array is the type and the numbers of its
/// elements.
pub enum ValueView {
    Scalar(ValueType, int),
    String(Seq<char>),
    Bytes(Seq<u8>),
    Packed(ValueType, Seq<int>),
    Message(MessageValueView),
    Incomplete(u8, Seq<u8>),
    Unknown(UnknownValueView),
}

/// The view of a [`FieldValue`].
pub struct FieldValueView {
    pub number: u64,
    pub value: ValueView,
}

/// The view of a [`MessageValue`].
pub struct MessageValueView {
    pub msg_ref: MessageRef,
    pub fields: Seq<FieldValueView>,
    pub garbage: Option<Seq<u8>>,
}

/// The number that stands for a `bool`.
pub open spec fn bool_number(b: bool) -> int {
    if b {
        1
    } else {
        0
    }
}

impl PackedArray {
    /// The type of the elements.
    pub open spec fn kind(self) -> ValueType {
        match self {
            PackedArray::Double(_) => ValueType::Double,
            PackedArray::Float(_) => ValueType::Float,
            PackedArray::Int32(_) => ValueType::Int32,
            PackedArray::Int64(_) => ValueType::Int64,
            PackedArray::UInt32(_) => ValueType::UInt32,
            PackedArray::UInt64(_) => ValueType::UInt64,
            PackedArray::SInt32(_) => ValueType::SInt32,
            PackedArray::SInt64(_) => ValueType::SInt64,
            PackedArray::Fixed32(_) => ValueType::Fixed32,
            PackedArray::Fixed64(_) => ValueType::Fixed64,
            PackedArray::SFixed32(_) => ValueType::SFixed32,
            PackedArray::SFixed64(_) => ValueType::SFixed64,
            PackedArray::Bool(_) => ValueType::Bool,
        }
    }

    /// The numbers of the elements.
    pub open spec fn items(self) -> Seq<int> {
        match self {
            PackedArray::Double(v) => v@.map_values(|x: u64| x as int),
            PackedArray::Float(v) => v@.map_values(|x: u32| x as int),
            PackedArray::Int32(v) => v@.map_values(|x: i32| x as int),
            PackedArray::Int64(v) => v@.map_values(|x: i64| x as int),
            PackedArray::UInt32(v) => v@.map_values(|x: u32| x as int),
            PackedArray::UInt64(v) => v@.map_values(|x: u64| x as int),
            PackedArray::SInt32(v) => v@.map_values(|x: i32| x as int),
            PackedArray::SInt64(v) => v@.map_values(|x: i64| x as int),
            PackedArray::Fixed32(v) => v@.map_values(|x: u32| x as int),
            PackedArray::Fixed64(v) => v@.map_values(|x: u64| x as int),
            PackedArray::SFixed32(v) => v@.map_values(|x: i32| x as int),
            PackedArray::SFixed64(v) => v@.map_values(|x: i64| x as int),
            PackedArray::Bool(v) => v@.map_values(|x: bool| bool_number(x)),
        }
    }
}

impl View for UnknownValue {
    type V = UnknownValueView;

    open spec fn view(&self) -> UnknownValueView {
        match self {
            UnknownValue::Varint(v) => UnknownValueView::Varint(*v),
            UnknownValue::Fixed64(v) => UnknownValueView::Fixed64(*v),
            UnknownValue::VariableLength(b) => UnknownValueView::VariableLength(bytes_content(*b)),
            UnknownValue::Fixed32(v) => UnknownValueView::Fixed32(*v),
            UnknownValue::Invalid(wire_type, b) => UnknownValueView::Invalid(
                *wire_type,
                bytes_content(*b),
            ),
        }
    }
}

/// The view of a value.
pub open spec fn value_view(v: Value) -> ValueView
    decreases v,
{
    match v {
        Value::Double(x) => ValueView::Scalar(ValueType::Double, x as int),
        Value::Float(x) => ValueView::Scalar(ValueType::Float, x as int),
        Value::Int32(x) => ValueView::Scalar(ValueType::Int32, x as int),
        Value::Int64(x) => ValueView::Scalar(ValueType::Int64, x as int),
        Value::UInt32(x) => ValueView::Scalar(ValueType::UInt32, x as int),
        Value::UInt64(x) => ValueView::Scalar(ValueType::UInt64, x as int),
        Value::SInt32(x) => ValueView::Scalar(ValueType::SInt32, x as int),
        Value::SInt64(x) => ValueView::Scalar(ValueType::SInt64, x as int),
        Value::Fixed32(x) => ValueView::Scalar(ValueType::Fixed32, x as int),
        Value::Fixed64(x) => ValueView::Scalar(ValueType::Fixed64, x as int),
        Value::SFixed32(x) => ValueView::Scalar(ValueType::SFixed32, x as int),
        Value::SFixed64(x) => ValueView::Scalar(ValueType::SFixed64, x as int),
        Value::Bool(b) => ValueView::Scalar(ValueType::Bool, bool_number(b)),
        Value::String(s) => ValueView::String(s@),
        Value::Bytes(b) => ValueView::Bytes(bytes_content(b)),
        Value::Packed(p) => ValueView::Packed(p.kind(), p.items()),
        Value::Message(m) => ValueView::Message(message_view(*m)),
        Value::Enum(e) => ValueView::Scalar(ValueType::Enum(e.enum_ref), e.value as int),
        Value::Incomplete(wire_type, b) => ValueView::Incomplete(wire_type, bytes_content(b)),
        Value::Unknown(u) => ValueView::Unknown(u@),
    }
}

/// The views of the fields of a message value, in order.
pub open spec fn field_views(fields: Seq<FieldValue>) -> Seq<FieldValueView>
    decreases fields,
{
    Seq::new(
        fields.len(),
        |i: int|
            if 0 <= i < fields.len() {
                FieldValueView { number: fields[i].number, value: value_view(fields[i].value) }
            } else {
                FieldValueView { number: 0, value: ValueView::Bytes(Seq::empty()) }
            },
    )
}

/// The view of a message value.
pub open spec fn message_view(m: MessageValue) -> MessageValueView
    decreases m,
{
    MessageValueView {
        msg_ref: m.msg_ref,
        fields: field_views(m.fields@),
        garbage: match m.garbage {
            Some(g) => Some(bytes_content(g)),
            None => None,
        },
    }
}

impl View for Value {
    type V = ValueView;

    open spec fn view(&self) -> ValueView {
        value_view(*self)
    }
}

impl View for FieldValue {
    type V = FieldValueView;

    open spec fn view(&self) -> FieldValueView {
        FieldValueView { number: self.number, value: value_view(self.value) }
    }
}

impl View for MessageValue {
    type V = MessageValueView;

    open spec fn view(&self) -> MessageValueView {
        message_view(*self)
    }
}

impl Clone for EnumValue {
    /// A copy of the value.
    fn clone(&self) -> (r: Self)
        ensures
            r == *self,
    {
        EnumValue { enum_ref: self.enum_ref, value: self.value }
    }
}

impl Clone for UnknownValue {
    /// A copy of the value, with the same view.
    fn clone(&self) -> (r: Self)
        ensures
            r@ == self@,
    {
        match self {
            UnknownValue::Varint(v) => UnknownValue::Varint(*v),
            UnknownValue::Fixed64(v) => UnknownValue::Fixed64(*v),
            UnknownValue::VariableLength(b) => UnknownValue::VariableLength(b.clone()),
            UnknownValue::Fixed32(v) => UnknownValue::Fixed32(*v),
            UnknownValue::Invalid(wire_type, b) => UnknownValue::Invalid(*wire_type, b.clone()),
        }
    }
}

impl Clone for PackedArray {
    /// A copy of the array, of the same type and with the same elements.
    fn clone(&self) -> (r: Self)
        ensures
            r.kind() == self.kind(),
            r.items() == self.items(),
    {
        match self {
            PackedArray::Double(v) => {
                let c = v.clone();
                assert(c@ =~= v@);
                PackedArray::Double(c)
            },
            PackedArray::Float(v) => {
                let c = v.clone();
                assert(c@ =~= v@);
                PackedArray::Float(c)
            },
            PackedArray::Int32(v) => {
                let c = v.clone();
                assert(c@ =~= v@);
                PackedArray::Int32(c)
            },
            PackedArray::Int64(v) => {
                let c = v.clone();
                assert(c@ =~= v@);
                PackedArray::Int64(c)
            },
            PackedArray::UInt32(v) => {
                let c = v.clone();
                assert(c@ =~= v@);
                PackedArray::UInt32(c)
            },
            PackedArray::UInt64(v) => {
                let c = v.clone();
                assert(c@ =~= v@);
                PackedArray::UInt64(c)
            },
            PackedArray::SInt32(v) => {
                let c = v.clone();
                assert(c@ =~= v@);
                PackedArray::SInt32(c)
            },
            PackedArray::SInt64(v) => {
                let c = v.clone();
                assert(c@ =~= v@);
                PackedArray::SInt64(c)
            },
            PackedArray::Fixed32(v) => {
                let c = v.clone();
                assert(c@ =~= v@);
                PackedArray::Fixed32(c)
            },
            PackedArray::Fixed64(v) => {
                let c = v.clone();
                assert(c@ =~= v@);
                PackedArray::Fixed64(c)
            },
            PackedArray::SFixed32(v) => {
                let c = v.clone();
                assert(c@ =~= v@);
                PackedArray::SFixed32(c)
            },
            PackedArray::SFixed64(v) => {
                let c = v.clone();
                assert(c@ =~= v@);
                PackedArray::SFixed64(c)
            },
            PackedArray::Bool(v) => {
                let c = v.clone();
                assert(c@ =~= v@);
                PackedArray::Bool(c)
            },
        }
    }
}

impl Clone for Value {
    /// A copy of the value, with the same view.
    fn clone(&self) -> (r: Self)
        ensures
            r@ == self@,
        decreases self,
    {
        match self {
            Value::Double(v) => Value::Double(*v),
            Value::Float(v) => Value::Float(*v),
            Value::Int32(v) => Value::Int32(*v),
            Value::Int64(v) => Value::Int64(*v),
            Value::UInt32(v) => Value::UInt32(*v),
            Value::UInt64(v) => Value::UInt64(*v),
            Value::SInt32(v) => Value::SInt32(*v),
            Value::SInt64(v) => Value::SInt64(*v),
            Value::Fixed32(v) => Value::Fixed32(*v),
            Value::Fixed64(v) => Value::Fixed64(*v),
            Value::SFixed32(v) => Value::SFixed32(*v),
            Value::SFixed64(v) => Value::SFixed64(*v),
            Value::Bool(v) => Value::Bool(*v),
            Value::String(v) => Value::String(v.clone()),
            Value::Bytes(v) => Value::Bytes(v.clone()),
            Value::Packed(v) => Value::Packed(v.clone()),
            Value::Message(v) => Value::Message(Box::new((&**v).clone())),
            Value::Enum(v) => Value::Enum(v.clone()),
            Value::Incomplete(wire_type, v) => Value::Incomplete(*wire_type, v.clone()),
            Value::Unknown(v) => Value::Unknown(v.clone()),
        }
    }
}

impl Clone for FieldValue {
    /// A copy of the field, with the same view.
    fn clone(&self) -> (r: Self)
        ensures
            r@ == self@,
        decreases self,
    {
        FieldValue { number: self.number, value: self.value.clone() }
    }
}

impl Clone for MessageValue {
    /// A copy of the message, with the same view.
    fn clone(&self) -> (r: Self)
        ensures
            r@ == self@,
        decreases self,
    {
        let mut fields: Vec<FieldValue> = Vec::new();
        let mut i: usize = 0;
        while i < self.fields.len()
            invariant
                i <= self.fields.len(),
                fields@.len() == i,
                forall|j: int| 0 <= j < i ==> (#[trigger] fields@[j])@ == self.fields@[j]@,
            decreases self.fields.len() - i,
        {
            fields.push(self.fields[i].clone());
            i += 1;
        }
        let garbage: Option<Bytes> = match &self.garbage {
            Some(g) => Some(g.clone()),
            None => None,
        };
        let r = MessageValue { msg_ref: self.msg_ref, fields, garbage };
        assert(field_views(r.fields@) =~= field_views(self.fields@));
        r
    }
}

/// Makes the value incomplete: it takes all of `original`, and nothing is
/// left to read.
pub fn return_incomplete<'a>(data: &mut &'a [u8], vt: u8, original: &'a [u8]) -> (r: Value)
    ensures
        r@ == ValueView::Incomplete(vt, original@),
        final(data)@.len() == 0,
{
    let d: &'a [u8] = *data;
    *data = &d[d.len()..d.len()];
    Value::Incomplete(vt, Bytes::copy_from_slice(original))
}

/// Takes eight bytes from the front of `data`, if there are that many.
pub fn try_read_8_bytes<'a>(data: &mut &'a [u8]) -> (r: Option<[u8; 8]>)
    ensures
        match r {
            Some(b) => old(data)@.len() >= 8 && b@ == old(data)@.take(8) && final(data)@ == old(data)@.skip(8),
            None => old(data)@.len() < 8 && final(data)@ == old(data)@,
        },
{
    if data.len() < 8 {
        return None;
    }
    let d: &'a [u8] = *data;
    let out: [u8; 8] = [d[0], d[1], d[2], d[3], d[4], d[5], d[6], d[7]];
    *data = &d[8..d.len()];
    assert(out@ =~= d@.take(8));
    assert(data@ =~= d@.skip(8));
    Some(out)
}

/// Takes four bytes from the front of `data`, if there are that many.
pub fn try_read_4_bytes<'a>(data: &mut &'a [u8]) -> (r: Option<[u8; 4]>)
    ensures
        match r {
            Some(b) => old(data)@.len() >= 4 && b@ == old(data)@.take(4) && final(data)@ == old(data)@.skip(4),
            None => old(data)@.len() < 4 && final(data)@ == old(data)@,
        },
{
    if data.len() < 4 {
        return None;
    }
    let d: &'a [u8] = *data;
    let out: [u8; 4] = [d[0], d[1], d[2], d[3]];
    *data = &d[4..d.len()];
    assert(out@ =~= d@.take(4));
    assert(data@ =~= d@.skip(4));
    Some(out)
}

/// Takes one varint of at most 64 bits from the front of `data`.
pub fn take_varint<'a>(data: &mut &'a [u8]) -> (r: Option<u64>)
    ensures
        match parse_varint_u64(old(data)@) {
            Some((v, n)) => r == Some(v) && n <= old(data)@.len() && final(data)@ == old(data)@.skip(n as int),
            None => r is None && final(data)@ == old(data)@,
        },
{
    let d: &'a [u8] = *data;
    match read_varint(d) {
        Some((v, n)) => {
            *data = &d[n..d.len()];
            assert(data@ =~= d@.skip(n as int));
            Some(v)
        },
        None => None,
    }
}

/// Takes a length-delimited payload from the front of `data`. Nothing is
/// taken where the length cannot be read or exceeds what is left.
pub fn read_delimited<'a>(data: &mut &'a [u8]) -> (r: Option<&'a [u8]>)
    ensures
        match length_delimited(old(data)@) {
            Some((payload, n)) => r is Some && r.unwrap()@ == payload && n <= old(data)@.len()
                && payload.len() < old(data)@.len() && final(data)@ == old(data)@.skip(n as int),
            None => r is None && final(data)@ == old(data)@,
        },
{
    let original: &'a [u8] = *data;
    proof {
        lemma_parse_varint_bounds(original@);
    }
    match read_varint(original) {
        Some((len, n)) => {
            if len > (original.len() - n) as u64 {
                return None;
            }
            let end: usize = n + len as usize;
            let payload = &original[n..end];
            *data = &original[end..original.len()];
            assert(data@ =~= original@.skip(end as int));
            Some(payload)
        },
        None => None,
    }
}

/// Takes a length-delimited string from the front of `data`. Bytes that are
/// not valid UTF-8 are replaced in the text.
pub fn read_string<'a>(data: &mut &'a [u8]) -> (r: Option<String>)
    ensures
        match length_delimited(old(data)@) {
            Some((payload, n)) => r is Some && r.unwrap()@ == crate::text::lossy_text(payload)
                && final(data)@ == old(data)@.skip(n as int),
            None => r is None && final(data)@ == old(data)@,
        },
{
    match read_delimited(data) {
        Some(payload) => Some(lossy_string(payload)),
        None => None,
    }
}

/// Takes a length-delimited byte string from the front of `data`.
pub fn read_bytes<'a>(data: &mut &'a [u8]) -> (r: Option<Bytes>)
    ensures
        match length_delimited(old(data)@) {
            Some((payload, n)) => r is Some && bytes_content(r.unwrap()) == payload && final(data)@ == old(data)@.skip(n as int),
            None => r is None && final(data)@ == old(data)@,
        },
{
    match read_delimited(data) {
        Some(payload) => Some(Bytes::copy_from_slice(payload)),
        None => None,
    }
}

/// The scalar of a varint-coded type that a 64-bit number stands for.
fn varint_to_scalar(vt: &ValueType, u: u64) -> (r: Option<i128>)
    ensures
        match varint_scalar(*vt, u as int) {
            Some(v) => r == Some(v as i128) && scalar_in_range(*vt, v),
            None => r is None,
        },
{
    match vt {
        ValueType::Int32 => {
            let v: i64 = to_signed_64(u);
            if -0x8000_0000 <= v && v < 0x8000_0000 {
                Some(v as i128)
            } else {
                None
            }
        },
        ValueType::Int64 => Some(to_signed_64(u) as i128),
        ValueType::Enum(_) => Some(to_signed_64(u) as i128),
        ValueType::UInt32 => if u < 0x1_0000_0000 {
            Some(u as i128)
        } else {
            None
        },
        ValueType::UInt64 => Some(u as i128),
        ValueType::SInt32 => if u < 0x1_0000_0000 {
            Some(zigzag_to_signed(u) as i128)
        } else {
            None
        },
        ValueType::SInt64 => Some(zigzag_to_signed(u) as i128),
        ValueType::Bool => if u != 0 {
            Some(1)
        } else {
            Some(0)
        },
        _ => None,
    }
}

/// Takes one scalar of type `vt` from the front of `data`. Nothing is taken
/// where there is none.
pub fn read_scalar<'a>(vt: &ValueType, data: &mut &'a [u8]) -> (r: Option<i128>)
    ensures
        match scalar_parse(*vt, old(data)@) {
            Some((v, n)) => r == Some(v as i128) && scalar_in_range(*vt, v) && 0 < n <= old(data)@.len() && final(data)@ == old(data)@.skip(n as int),
            None => r is None && final(data)@ == old(data)@,
        },
{
    proof {
        lemma_byte_weight_values();
        lemma_parse_varint_bounds(data@);
        if data@.len() >= 8 {
            lemma_le_value_bound(data@.take(8));
        }
        if data@.len() >= 4 {
            lemma_le_value_bound(data@.take(4));
        }
    }
    match vt {
        ValueType::Double | ValueType::Fixed64 => match try_read_8_bytes(data) {
            Some(b) => Some(wide_8(&b) as i128),
            None => None,
        },
        ValueType::SFixed64 => match try_read_8_bytes(data) {
            Some(b) => Some(to_signed_64(wide_8(&b)) as i128),
            None => None,
        },
        ValueType::Float | ValueType::Fixed32 => match try_read_4_bytes(data) {
            Some(b) => Some(wide_4(&b) as i128),
            None => None,
        },
        ValueType::SFixed32 => match try_read_4_bytes(data) {
            Some(b) => Some(to_signed_32(wide_4(&b)) as i128),
            None => None,
        },
        ValueType::String | ValueType::Bytes | ValueType::Message(_) => None,
        _ => {
            let original: &'a [u8] = *data;
            match take_varint(data) {
                Some(u) => {
                    let r = varint_to_scalar(vt, u);
                    if r.is_none() {
                        *data = original;
                    }
                    r
                },
                None => None,
            }
        },
    }
}

/// The number that eight bytes spell in little-endian order.
fn wide_8(b: &[u8; 8]) -> (r: u64)
    ensures
        r == le_value(b@),
{
    let s = b.as_slice();
    assert(s@.take(8) =~= b@);
    read_le(s, 8)
}

/// The number that four bytes spell in little-endian order.
fn wide_4(b: &[u8; 4]) -> (r: u32)
    ensures
        r == le_value(b@),
{
    let s = b.as_slice();
    assert(s@.take(4) =~= b@);
    proof {
        lemma_le_value_bound(b@);
        lemma_byte_weight_values();
    }
    read_le(s, 4) as u32
}

/// The value of scalar type `vt` with the number `v`.
pub fn scalar_value(vt: &ValueType, v: i128) -> (r: Value)
    requires
        scalar_in_range(*vt, v as int),
    ensures
        r@ == ValueView::Scalar(*vt, v as int),
{
    match vt {
        ValueType::Double => Value::Double(v as u64),
        ValueType::Float => Value::Float(v as u32),
        ValueType::Int32 => Value::Int32(v as i32),
        ValueType::Int64 => Value::Int64(v as i64),
        ValueType::UInt32 => Value::UInt32(v as u32),
        ValueType::UInt64 => Value::UInt64(v as u64),
        ValueType::SInt32 => Value::SInt32(v as i32),
        ValueType::SInt64 => Value::SInt64(v as i64),
        ValueType::Fixed32 => Value::Fixed32(v as u32),
        ValueType::Fixed64 => Value::Fixed64(v as u64),
        ValueType::SFixed32 => Value::SFixed32(v as i32),
        ValueType::SFixed64 => Value::SFixed64(v as i64),
        ValueType::Bool => Value::Bool(v != 0),
        ValueType::Enum(e) => Value::Enum(EnumValue { enum_ref: *e, value: v as i64 }),
        _ => {
            proof {
                assert(false);
            }
            unreached()
        },
    }
}

/// The numbers as 64-bit unsigned elements.
fn narrow_u64(items: &Vec<i128>) -> (r: Vec<u64>)
    requires
        forall|i: int| 0 <= i < items@.len() ==> 0 <= #[trigger] items@[i] < 0x1_0000_0000_0000_0000,
    ensures
        r@.map_values(|x: u64| x as int) == items@.map_values(|x: i128| x as int),
{
    let mut out: Vec<u64> = Vec::new();
    let mut i: usize = 0;
    while i < items.len()
        invariant
            i <= items.len(),
            out@.len() == i,
            forall|j: int| 0 <= j < items@.len() ==> 0 <= #[trigger] items@[j] < 0x1_0000_0000_0000_0000,
            forall|j: int| 0 <= j < i ==> out@[j] as int == items@[j] as int,
        decreases items.len() - i,
    {
        out.push(items[i] as u64);
        i += 1;
    }
    assert(out@.map_values(|x: u64| x as int) =~= items@.map_values(|x: i128| x as int));
    out
}

/// The numbers as 32-bit unsigned elements.
fn narrow_u32(items: &Vec<i128>) -> (r: Vec<u32>)
    requires
        forall|i: int| 0 <= i < items@.len() ==> 0 <= #[trigger] items@[i] < 0x1_0000_0000,
    ensures
        r@.map_values(|x: u32| x as int) == items@.map_values(|x: i128| x as int),
{
    let mut out: Vec<u32> = Vec::new();
    let mut i: usize = 0;
    while i < items.len()
        invariant
            i <= items.len(),
            out@.len() == i,
            forall|j: int| 0 <= j < items@.len() ==> 0 <= #[trigger] items@[j] < 0x1_0000_0000,
            forall|j: int| 0 <= j < i ==> out@[j] as int == items@[j] as int,
        decreases items.len() - i,
    {
        out.push(items[i] as u32);
        i += 1;
    }
    assert(out@.map_values(|x: u32| x as int) =~= items@.map_values(|x: i128| x as int));
    out
}

/// The numbers as 64-bit signed elements.
fn narrow_i64(items: &Vec<i128>) -> (r: Vec<i64>)
    requires
        forall|i: int|
            0 <= i < items@.len() ==> -0x8000_0000_0000_0000 <= #[trigger] items@[i]
                < 0x8000_0000_0000_0000,
    ensures
        r@.map_values(|x: i64| x as int) == items@.map_values(|x: i128| x as int),
{
    let mut out: Vec<i64> = Vec::new();
    let mut i: usize = 0;
    while i < items.len()
        invariant
            i <= items.len(),
            out@.len() == i,
            forall|j: int|
                0 <= j < items@.len() ==> -0x8000_0000_0000_0000 <= #[trigger] items@[j]
                    < 0x8000_0000_0000_0000,
            forall|j: int| 0 <= j < i ==> out@[j] as int == items@[j] as int,
        decreases items.len() - i,
    {
        out.push(items[i] as i64);
        i += 1;
    }
    assert(out@.map_values(|x: i64| x as int) =~= items@.map_values(|x: i128| x as int));
    out
}

/// The numbers as 32-bit signed elements.
fn narrow_i32(items: &Vec<i128>) -> (r: Vec<i32>)
    requires
        forall|i: int|
            0 <= i < items@.len() ==> -0x8000_0000 <= #[trigger] items@[i] < 0x8000_0000,
    ensures
        r@.map_values(|x: i32| x as int) == items@.map_values(|x: i128| x as int),
{
    let mut out: Vec<i32> = Vec::new();
    let mut i: usize = 0;
    while i < items.len()
        invariant
            i <= items.len(),
            out@.len() == i,
            forall|j: int|
                0 <= j < items@.len() ==> -0x8000_0000 <= #[trigger] items@[j] < 0x8000_0000,
            forall|j: int| 0 <= j < i ==> out@[j] as int == items@[j] as int,
        decreases items.len() - i,
    {
        out.push(items[i] as i32);
        i += 1;
    }
    assert(out@.map_values(|x: i32| x as int) =~= items@.map_values(|x: i128| x as int));
    out
}

/// The numbers as truth values.
fn narrow_bool(items: &Vec<i128>) -> (r: Vec<bool>)
    requires
        forall|i: int| 0 <= i < items@.len() ==> 0 <= #[trigger] items@[i] <= 1,
    ensures
        r@.map_values(|x: bool| bool_number(x)) == items@.map_values(|x: i128| x as int),
{
    let mut out: Vec<bool> = Vec::new();
    let mut i: usize = 0;
    while i < items.len()
        invariant
            i <= items.len(),
            out@.len() == i,
            forall|j: int| 0 <= j < items@.len() ==> 0 <= #[trigger] items@[j] <= 1,
            forall|j: int| 0 <= j < i ==> bool_number(out@[j]) == items@[j] as int,
        decreases items.len() - i,
    {
        out.push(items[i] != 0);
        i += 1;
    }
    assert(out@.map_values(|x: bool| bool_number(x)) =~= items@.map_values(|x: i128| x as int));
    out
}

/// The packed array of type `vt` with the given numbers as elements.
pub fn packed_array(vt: &ValueType, items: &Vec<i128>) -> (r: PackedArray)
    requires
        is_packable(*vt),
        forall|i: int| 0 <= i < items@.len() ==> scalar_in_range(*vt, #[trigger] items@[i] as int),
    ensures
        r.kind() == *vt,
        r.items() == items@.map_values(|x: i128| x as int),
{
    match vt {
        ValueType::Double => PackedArray::Double(narrow_u64(items)),
        ValueType::Float => PackedArray::Float(narrow_u32(items)),
        ValueType::Int32 => PackedArray::Int32(narrow_i32(items)),
        ValueType::Int64 => PackedArray::Int64(narrow_i64(items)),
        ValueType::UInt32 => PackedArray::UInt32(narrow_u32(items)),
        ValueType::UInt64 => PackedArray::UInt64(narrow_u64(items)),
        ValueType::SInt32 => PackedArray::SInt32(narrow_i32(items)),
        ValueType::SInt64 => PackedArray::SInt64(narrow_i64(items)),
        ValueType::Fixed32 => PackedArray::Fixed32(narrow_u32(items)),
        ValueType::Fixed64 => PackedArray::Fixed64(narrow_u64(items)),
        ValueType::SFixed32 => PackedArray::SFixed32(narrow_i32(items)),
        ValueType::SFixed64 => PackedArray::SFixed64(narrow_i64(items)),
        ValueType::Bool => PackedArray::Bool(narrow_bool(items)),
        _ => {
            proof {
                assert(false);
            }
            unreached()
        },
    }
}

impl Value {
    /// Decodes a single value of the declared type `vt` from the front of
    /// `data`.
    pub fn decode<'a>(data: &mut &'a [u8], vt_raw: u8, vt: &ValueType, ctx: &Context) -> (r: Self)
        requires
            ctx@.refs_resolved(),
            *vt is Message ==> ctx@.has_message(vt->Message_0),
        ensures
            r@ == decode_typed(ctx@, *vt, vt_raw, old(data)@).0,
            decode_typed(ctx@, *vt, vt_raw, old(data)@).1 <= old(data)@.len(),
            final(data)@ == old(data)@.skip(decode_typed(ctx@, *vt, vt_raw, old(data)@).1 as int),
        decreases old(data)@.len(), 0nat,
    {
        let original: &'a [u8] = *data;
        let opt: Option<Value> = match vt {
            ValueType::String => match read_string(data) {
                Some(s) => Some(Value::String(s)),
                None => None,
            },
            ValueType::Bytes => match read_bytes(data) {
                Some(b) => Some(Value::Bytes(b)),
                None => None,
            },
            ValueType::Message(mref) => match read_delimited(data) {
                Some(payload) => Some(
                    Value::Message(Box::new(ctx.resolve_message(*mref).decode(payload, ctx))),
                ),
                None => None,
            },
            _ => match read_scalar(vt, data) {
                Some(v) => Some(scalar_value(vt, v)),
                None => None,
            },
        };
        match opt {
            Some(v) => v,
            None => {
                let r = return_incomplete(data, vt_raw, original);
                assert(data@ =~= original@.skip(original@.len() as int));
                r
            },
        }
    }

    /// Decodes a packed array of scalars of type `vt` from the front of
    /// `data`.
    pub fn decode_packed<'a>(data: &mut &'a [u8], vt_raw: u8, vt: &ValueType) -> (r: Self)
        requires
            is_packable(*vt),
        ensures
            r@ == decode_packed(*vt, vt_raw, old(data)@).0,
            decode_packed(*vt, vt_raw, old(data)@).1 <= old(data)@.len(),
            final(data)@ == old(data)@.skip(decode_packed(*vt, vt_raw, old(data)@).1 as int),
    {
        let original: &'a [u8] = *data;
        let payload: &'a [u8] = match read_delimited(data) {
            Some(p) => p,
            None => {
                let r = return_incomplete(data, vt_raw, original);
                assert(data@ =~= original@.skip(original@.len() as int));
                return r;
            },
        };
        let used: usize = original.len() - data.len();
        let mut array: &'a [u8] = payload;
        let mut items: Vec<i128> = Vec::new();
        while array.len() > 0
            invariant
                is_packable(*vt),
                original@ == old(data)@,
                length_delimited(original@) == Some((payload@, used as nat)),
                used <= original@.len(),
                data@ == original@.skip(used as int),
                forall|i: int|
                    0 <= i < items@.len() ==> scalar_in_range(*vt, #[trigger] items@[i] as int),
                packed_parse(*vt, payload@) == match packed_parse(*vt, array@) {
                    Some(rest) => Some(items@.map_values(|x: i128| x as int) + rest),
                    None => None,
                },
            decreases array@.len(),
        {
            let ghost done = items@.map_values(|x: i128| x as int);
            match read_scalar(vt, &mut array) {
                Some(v) => {
                    items.push(v);
                    proof {
                        let now = items@.map_values(|x: i128| x as int);
                        assert(now =~= done + seq![v as int]);
                        match packed_parse(*vt, array@) {
                            Some(rest) => {
                                assert(now + rest =~= done + (seq![v as int] + rest));
                            },
                            None => {},
                        }
                    }
                },
                None => {
                    let raw = &original[0..used];
                    assert(raw@ =~= original@.take(used as int));
                    return Value::Incomplete(vt_raw, Bytes::copy_from_slice(raw));
                },
            }
        }
        proof {
            let all = items@.map_values(|x: i128| x as int);
            assert(all + Seq::<int>::empty() =~= all);
        }
        Value::Packed(packed_array(vt, &items))
    }

    /// Decodes a value of which only the wire type is known from the front of
    /// `data`.
    pub fn decode_unknown<'a>(data: &mut &'a [u8], vt: u8) -> (r: Value)
        ensures
            r@ == decode_unknown(vt, old(data)@).0,
            decode_unknown(vt, old(data)@).1 <= old(data)@.len(),
            final(data)@ == old(data)@.skip(decode_unknown(vt, old(data)@).1 as int),
    {
        let original: &'a [u8] = *data;
        proof {
            lemma_byte_weight_values();
            if original@.len() >= 8 {
                lemma_le_value_bound(original@.take(8));
            }
            if original@.len() >= 4 {
                lemma_le_value_bound(original@.take(4));
            }
        }
        let value: Option<UnknownValue> = if vt == 0 {
            match take_varint(data) {
                Some(v) => Some(UnknownValue::Varint(v as u128)),
                None => None,
            }
        } else if vt == 1 {
            match try_read_8_bytes(data) {
                Some(b) => Some(UnknownValue::Fixed64(wide_8(&b))),
                None => None,
            }
        } else if vt == 2 {
            match read_bytes(data) {
                Some(b) => Some(UnknownValue::VariableLength(b)),
                None => None,
            }
        } else if vt == 5 {
            match try_read_4_bytes(data) {
                Some(b) => Some(UnknownValue::Fixed32(wide_4(&b))),
                None => None,
            }
        } else {
            let bytes = Bytes::copy_from_slice(original);
            *data = &original[original.len()..original.len()];
            assert(data@ =~= original@.skip(original@.len() as int));
            Some(UnknownValue::Invalid(vt, bytes))
        };
        match value {
            Some(u) => Value::Unknown(u),
            None => {
                let r = return_incomplete(data, vt, original);
                assert(data@ =~= original@.skip(original@.len() as int));
                r
            },
        }
    }

    /// The wire type under which the value is encoded.
    pub fn wire_type(&self) -> (r: u8)
        ensures
            r == value_wire_type(self@),
    {
        match self {
            Value::Double(_) => 1,
            Value::Float(_) => 5,
            Value::Int32(_) => 0,
            Value::Int64(_) => 0,
            Value::UInt32(_) => 0,
            Value::UInt64(_) => 0,
            Value::SInt32(_) => 0,
            Value::SInt64(_) => 0,
            Value::Fixed32(_) => 5,
            Value::Fixed64(_) => 1,
            Value::SFixed32(_) => 5,
            Value::SFixed64(_) => 1,
            Value::Bool(_) => 0,
            Value::String(_) => 2,
            Value::Bytes(_) => 2,
            Value::Message(_) => 2,
            Value::Enum(_) => 0,
            Value::Packed(_) => 2,
            Value::Unknown(unk) => match unk {
                UnknownValue::Varint(_) => 0,
                UnknownValue::Fixed64(_) => 1,
                UnknownValue::VariableLength(_) => 2,
                UnknownValue::Fixed32(_) => 5,
                UnknownValue::Invalid(vt, _) => *vt,
            },
            Value::Incomplete(vt, _) => *vt,
        }
    }

    /// Appends the bytes of the value, without its tag, to `out`.
    pub fn write_payload(&self, out: &mut BytesMut)
        ensures
            bytes_mut_content(*final(out)) == bytes_mut_content(*old(out)) + value_payload(self@),
        decreases self, 0nat,
    {
        match self {
            Value::Double(v) => write_scalar(&ValueType::Double, *v as i128, out),
            Value::Float(v) => write_scalar(&ValueType::Float, *v as i128, out),
            Value::Int32(v) => write_scalar(&ValueType::Int32, *v as i128, out),
            Value::Int64(v) => write_scalar(&ValueType::Int64, *v as i128, out),
            Value::UInt32(v) => write_scalar(&ValueType::UInt32, *v as i128, out),
            Value::UInt64(v) => write_scalar(&ValueType::UInt64, *v as i128, out),
            Value::SInt32(v) => write_scalar(&ValueType::SInt32, *v as i128, out),
            Value::SInt64(v) => write_scalar(&ValueType::SInt64, *v as i128, out),
            Value::Fixed32(v) => write_scalar(&ValueType::Fixed32, *v as i128, out),
            Value::Fixed64(v) => write_scalar(&ValueType::Fixed64, *v as i128, out),
            Value::SFixed32(v) => write_scalar(&ValueType::SFixed32, *v as i128, out),
            Value::SFixed64(v) => write_scalar(&ValueType::SFixed64, *v as i128, out),
            Value::Bool(v) => {
                let n: i128 = if *v {
                    1
                } else {
                    0
                };
                write_scalar(&ValueType::Bool, n, out)
            },
            Value::String(v) => write_delimited(v.as_str().as_bytes(), out),
            Value::Bytes(v) => {
                let s: &[u8] = core::ops::Deref::deref(v);
                write_delimited(s, out)
            },
            Value::Enum(v) => write_scalar(&ValueType::Enum(v.enum_ref), v.value as i128, out),
            Value::Message(v) => {
                let mut inner: BytesMut = BytesMut::new();
                v.write_message(&mut inner);
                assert(bytes_mut_content(inner) =~= message_encoding(v@));
                let data: &[u8] = core::ops::Deref::deref(&inner);
                write_delimited(data, out)
            },
            Value::Packed(p) => p.write_payload(out),
            Value::Unknown(u) => u.write_payload(out),
            Value::Incomplete(_, bytes) => {
                let s: &[u8] = core::ops::Deref::deref(bytes);
                out.extend_from_slice(s)
            },
        }
    }

    /// The wire type and the bytes of the value, without its tag.
    pub fn encode(&self, ctx: &Context) -> (r: Option<(u8, BytesMut)>)
        ensures
            r is Some,
            r.unwrap().0 == value_wire_type(self@),
            bytes_mut_content(r.unwrap().1) == value_payload(self@),
    {
        let mut out: BytesMut = BytesMut::new();
        self.write_payload(&mut out);
        assert(bytes_mut_content(out) =~= value_payload(self@));
        Some((self.wire_type(), out))
    }
}

/// Appends the varint of `v` to `out`.
pub fn put_varint(v: u128, out: &mut BytesMut)
    ensures
        bytes_mut_content(*final(out)) == bytes_mut_content(*old(out)) + varint_encoding(v as nat),
{
    let mut data: Vec<u8> = Vec::new();
    write_varint(v, &mut data);
    assert(data@ =~= varint_encoding(v as nat));
    out.extend_from_slice(data.as_slice());
}

/// Appends the `width` low bytes of `v`, lowest first, to `out`.
pub fn put_le(v: u64, width: usize, out: &mut BytesMut)
    ensures
        bytes_mut_content(*final(out)) == bytes_mut_content(*old(out)) + le_bytes(
            v as nat,
            width as nat,
        ),
{
    let mut data: Vec<u8> = Vec::new();
    write_le(v, width, &mut data);
    assert(data@ =~= le_bytes(v as nat, width as nat));
    out.extend_from_slice(data.as_slice());
}

/// Appends `data` behind the varint of its length to `out`.
pub fn write_delimited(data: &[u8], out: &mut BytesMut)
    ensures
        bytes_mut_content(*final(out)) == bytes_mut_content(*old(out)) + delimited(data@),
{
    put_varint(data.len() as u128, out);
    out.extend_from_slice(data);
    assert(bytes_mut_content(*out) =~= bytes_mut_content(*old(out)) + delimited(data@));
}

/// Appends the bytes of one scalar of type `vt` to `out`.
pub fn write_scalar(vt: &ValueType, v: i128, out: &mut BytesMut)
    requires
        scalar_in_range(*vt, v as int),
    ensures
        bytes_mut_content(*final(out)) == bytes_mut_content(*old(out)) + scalar_encoding(*vt, v as int),
{
    match vt {
        ValueType::Double | ValueType::Fixed64 => put_le(v as u64, 8, out),
        ValueType::SFixed64 => put_le(to_unsigned_64(v as i64), 8, out),
        ValueType::Float | ValueType::Fixed32 => put_le(v as u64, 4, out),
        ValueType::SFixed32 => put_le(to_unsigned_32(v as i32) as u64, 4, out),
        ValueType::Int32 | ValueType::Int64 | ValueType::Enum(_) => put_varint(
            to_unsigned_64(v as i64) as u128,
            out,
        ),
        ValueType::UInt32 | ValueType::UInt64 | ValueType::Bool => put_varint(v as u128, out),
        ValueType::SInt32 | ValueType::SInt64 => put_varint(
            zigzag_from_signed(v as i64) as u128,
            out,
        ),
        _ => {
            proof {
                assert(false);
            }
        },
    }
}

/// Appends the bytes of the 64-bit unsigned elements of a packed array.
fn write_items_u64(vt: &ValueType, items: &Vec<u64>, out: &mut BytesMut)
    requires
        *vt is Double || *vt is Fixed64 || *vt is UInt64,
    ensures
        bytes_mut_content(*final(out)) == bytes_mut_content(*old(out)) + packed_encoding(*vt, items@.map_values(|x: u64| x as int)),
{
    let ghost all = items@.map_values(|x: u64| x as int);
    let mut i: usize = 0;
    while i < items.len()
        invariant
            i <= items.len(),
            *vt is Double || *vt is Fixed64 || *vt is UInt64,
            all == items@.map_values(|x: u64| x as int),
            bytes_mut_content(*out) == bytes_mut_content(*old(out)) + packed_encoding(*vt, all.take(i as int)),
        decreases items.len() - i,
    {
        proof {
            lemma_packed_encoding_push(*vt, all.take(i as int), all[i as int]);
            assert(all.take(i + 1) =~= all.take(i as int).push(all[i as int]));
        }
        write_scalar(vt, items[i] as i128, out);
        assert(bytes_mut_content(*out) =~= bytes_mut_content(*old(out)) + packed_encoding(*vt, all.take(i + 1)));
        i += 1;
    }
    assert(all.take(items.len() as int) =~= all);
}

/// Appends the bytes of the 32-bit unsigned elements of a packed array.
fn write_items_u32(vt: &ValueType, items: &Vec<u32>, out: &mut BytesMut)
    requires
        *vt is Float || *vt is Fixed32 || *vt is UInt32,
    ensures
        bytes_mut_content(*final(out)) == bytes_mut_content(*old(out)) + packed_encoding(*vt, items@.map_values(|x: u32| x as int)),
{
    let ghost all = items@.map_values(|x: u32| x as int);
    let mut i: usize = 0;
    while i < items.len()
        invariant
            i <= items.len(),
            *vt is Float || *vt is Fixed32 || *vt is UInt32,
            all == items@.map_values(|x: u32| x as int),
            bytes_mut_content(*out) == bytes_mut_content(*old(out)) + packed_encoding(*vt, all.take(i as int)),
        decreases items.len() - i,
    {
        proof {
            lemma_packed_encoding_push(*vt, all.take(i as int), all[i as int]);
            assert(all.take(i + 1) =~= all.take(i as int).push(all[i as int]));
        }
        write_scalar(vt, items[i] as i128, out);
        assert(bytes_mut_content(*out) =~= bytes_mut_content(*old(out)) + packed_encoding(*vt, all.take(i + 1)));
        i += 1;
    }
    assert(all.take(items.len() as int) =~= all);
}

/// Appends the bytes of the 64-bit signed elements of a packed array.
fn write_items_i64(vt: &ValueType, items: &Vec<i64>, out: &mut BytesMut)
    requires
        *vt is Int64 || *vt is SInt64 || *vt is SFixed64,
    ensures
        bytes_mut_content(*final(out)) == bytes_mut_content(*old(out)) + packed_encoding(*vt, items@.map_values(|x: i64| x as int)),
{
    let ghost all = items@.map_values(|x: i64| x as int);
    let mut i: usize = 0;
    while i < items.len()
        invariant
            i <= items.len(),
            *vt is Int64 || *vt is SInt64 || *vt is SFixed64,
            all == items@.map_values(|x: i64| x as int),
            bytes_mut_content(*out) == bytes_mut_content(*old(out)) + packed_encoding(*vt, all.take(i as int)),
        decreases items.len() - i,
    {
        proof {
            lemma_packed_encoding_push(*vt, all.take(i as int), all[i as int]);
            assert(all.take(i + 1) =~= all.take(i as int).push(all[i as int]));
        }
        write_scalar(vt, items[i] as i128, out);
        assert(bytes_mut_content(*out) =~= bytes_mut_content(*old(out)) + packed_encoding(*vt, all.take(i + 1)));
        i += 1;
    }
    assert(all.take(items.len() as int) =~= all);
}

/// Appends the bytes of the 32-bit signed elements of a packed array.
fn write_items_i32(vt: &ValueType, items: &Vec<i32>, out: &mut BytesMut)
    requires
        *vt is Int32 || *vt is SInt32 || *vt is SFixed32,
    ensures
        bytes_mut_content(*final(out)) == bytes_mut_content(*old(out)) + packed_encoding(*vt, items@.map_values(|x: i32| x as int)),
{
    let ghost all = items@.map_values(|x: i32| x as int);
    let mut i: usize = 0;
    while i < items.len()
        invariant
            i <= items.len(),
            *vt is Int32 || *vt is SInt32 || *vt is SFixed32,
            all == items@.map_values(|x: i32| x as int),
            bytes_mut_content(*out) == bytes_mut_content(*old(out)) + packed_encoding(*vt, all.take(i as int)),
        decreases items.len() - i,
    {
        proof {
            lemma_packed_encoding_push(*vt, all.take(i as int), all[i as int]);
            assert(all.take(i + 1) =~= all.take(i as int).push(all[i as int]));
        }
        write_scalar(vt, items[i] as i128, out);
        assert(bytes_mut_content(*out) =~= bytes_mut_content(*old(out)) + packed_encoding(*vt, all.take(i + 1)));
        i += 1;
    }
    assert(all.take(items.len() as int) =~= all);
}

/// Appends the bytes of the truth values of a packed array.
fn write_items_bool(items: &Vec<bool>, out: &mut BytesMut)
    ensures
        bytes_mut_content(*final(out)) == bytes_mut_content(*old(out)) + packed_encoding(
            ValueType::Bool,
            items@.map_values(|x: bool| bool_number(x)),
        ),
{
    let ghost all = items@.map_values(|x: bool| bool_number(x));
    let mut i: usize = 0;
    while i < items.len()
        invariant
            i <= items.len(),
            all == items@.map_values(|x: bool| bool_number(x)),
            bytes_mut_content(*out) == bytes_mut_content(*old(out)) + packed_encoding(ValueType::Bool, all.take(i as int)),
        decreases items.len() - i,
    {
        proof {
            lemma_packed_encoding_push(ValueType::Bool, all.take(i as int), all[i as int]);
            assert(all.take(i + 1) =~= all.take(i as int).push(all[i as int]));
        }
        let n: i128 = if items[i] {
            1
        } else {
            0
        };
        write_scalar(&ValueType::Bool, n, out);
        assert(bytes_mut_content(*out) =~= bytes_mut_content(*old(out)) + packed_encoding(ValueType::Bool, all.take(i + 1)));
        i += 1;
    }
    assert(all.take(items.len() as int) =~= all);
}

/// The encoding of a packed array with one more element is the encoding of
/// the array followed by that of the element.
pub proof fn lemma_packed_encoding_push(vt: ValueType, items: Seq<int>, x: int)
    ensures
        packed_encoding(vt, items.push(x)) == packed_encoding(vt, items) + scalar_encoding(vt, x),
    decreases items.len(),
{
    let all = items.push(x);
    if items.len() == 0 {
        assert(all.skip(1) =~= Seq::<int>::empty());
        assert(packed_encoding(vt, all.skip(1)) =~= Seq::<u8>::empty());
        assert(packed_encoding(vt, all) =~= scalar_encoding(vt, x));
        assert(packed_encoding(vt, items) + scalar_encoding(vt, x) =~= scalar_encoding(vt, x));
    } else {
        assert(all.skip(1) =~= items.skip(1).push(x));
        lemma_packed_encoding_push(vt, items.skip(1), x);
        assert(packed_encoding(vt, all) =~= packed_encoding(vt, items) + scalar_encoding(vt, x));
    }
}

/// The encoding of a list of fields with one more field is the encoding of
/// the list followed by that of the field.
pub proof fn lemma_fields_encoding_push(fields: Seq<FieldValueView>, f: FieldValueView)
    ensures
        fields_encoding(fields.push(f)) == fields_encoding(fields) + field_encoding(f),
    decreases fields.len(),
{
    let all = fields.push(f);
    if fields.len() == 0 {
        assert(all.skip(1) =~= Seq::<FieldValueView>::empty());
        assert(fields_encoding(all.skip(1)) =~= Seq::<u8>::empty());
        assert(fields_encoding(all) =~= field_encoding(f));
        assert(fields_encoding(fields) + field_encoding(f) =~= field_encoding(f));
    } else {
        assert(all.skip(1) =~= fields.skip(1).push(f));
        lemma_fields_encoding_push(fields.skip(1), f);
        assert(fields_encoding(all) =~= fields_encoding(fields) + field_encoding(f));
    }
}

impl PackedArray {
    /// Appends the array behind the varint of its length in bytes to `out`.
    pub fn write_payload(&self, out: &mut BytesMut)
        ensures
            bytes_mut_content(*final(out)) == bytes_mut_content(*old(out)) + delimited(packed_encoding(self.kind(), self.items())),
    {
        let mut inner: BytesMut = BytesMut::new();
        match self {
            PackedArray::Double(v) => write_items_u64(&ValueType::Double, v, &mut inner),
            PackedArray::Float(v) => write_items_u32(&ValueType::Float, v, &mut inner),
            PackedArray::Int32(v) => write_items_i32(&ValueType::Int32, v, &mut inner),
            PackedArray::Int64(v) => write_items_i64(&ValueType::Int64, v, &mut inner),
            PackedArray::UInt32(v) => write_items_u32(&ValueType::UInt32, v, &mut inner),
            PackedArray::UInt64(v) => write_items_u64(&ValueType::UInt64, v, &mut inner),
            PackedArray::SInt32(v) => write_items_i32(&ValueType::SInt32, v, &mut inner),
            PackedArray::SInt64(v) => write_items_i64(&ValueType::SInt64, v, &mut inner),
            PackedArray::Fixed32(v) => write_items_u32(&ValueType::Fixed32, v, &mut inner),
            PackedArray::Fixed64(v) => write_items_u64(&ValueType::Fixed64, v, &mut inner),
            PackedArray::SFixed32(v) => write_items_i32(&ValueType::SFixed32, v, &mut inner),
            PackedArray::SFixed64(v) => write_items_i64(&ValueType::SFixed64, v, &mut inner),
            PackedArray::Bool(v) => write_items_bool(v, &mut inner),
        }
        assert(bytes_mut_content(inner) =~= packed_encoding(self.kind(), self.items()));
        let data: &[u8] = core::ops::Deref::deref(&inner);
        write_delimited(data, out);
    }

    /// The bytes of the array behind the varint of their number.
    pub fn encode(&self) -> (r: BytesMut)
        ensures
            bytes_mut_content(r) == delimited(packed_encoding(self.kind(), self.items())),
    {
        let mut out: BytesMut = BytesMut::new();
        self.write_payload(&mut out);
        assert(bytes_mut_content(out) =~= delimited(packed_encoding(self.kind(), self.items())));
        out
    }
}

impl UnknownValue {
    /// Appends the bytes of the value, without its tag, to `out`.
    pub fn write_payload(&self, out: &mut BytesMut)
        ensures
            bytes_mut_content(*final(out)) == bytes_mut_content(*old(out)) + unknown_payload(self@),
    {
        match self {
            UnknownValue::Varint(v) => put_varint(*v, out),
            UnknownValue::Fixed64(v) => put_le(*v, 8, out),
            UnknownValue::VariableLength(b) => {
                let s: &[u8] = core::ops::Deref::deref(b);
                write_delimited(s, out)
            },
            UnknownValue::Fixed32(v) => put_le(*v as u64, 4, out),
            UnknownValue::Invalid(_, v) => {
                let s: &[u8] = core::ops::Deref::deref(v);
                out.extend_from_slice(s)
            },
        }
    }

    /// Encodes the value into protobuf wire format, without its tag.
    pub fn encode(&self) -> (r: BytesMut)
        ensures
            bytes_mut_content(r) == unknown_payload(self@),
    {
        let mut out: BytesMut = BytesMut::new();
        self.write_payload(&mut out);
        assert(bytes_mut_content(out) =~= unknown_payload(self@));
        out
    }
}

impl MessageInfo {
    /// Decode a message.
    ///
    /// Every message that a field of this message or of a message of the
    /// context refers to must be a message of the context.
    pub fn decode(&self, data: &[u8], ctx: &Context) -> (r: MessageValue)
        requires
            ctx@.refs_resolved(),
            self@.refs_resolved_in(ctx@),
        ensures
            r@ == decode_body(ctx@, self@, data@),
        decreases data@.len(), 3nat,
    {
        let mut msg = MessageValue { msg_ref: self.self_ref, fields: Vec::new(), garbage: None };
        let mut cur: &[u8] = data;
        assert(field_views(msg.fields@) =~= Seq::<FieldValueView>::empty());
        loop
            invariant_except_break
                msg.garbage is None,
                decode_fields(ctx@, self@, data@) == (
                    field_views(msg.fields@) + decode_fields(ctx@, self@, cur@).0,
                    decode_fields(ctx@, self@, cur@).1,
                ),
            invariant
                ctx@.refs_resolved(),
                self@.refs_resolved_in(ctx@),
                cur@.len() <= data@.len(),
                msg.msg_ref == self.self_ref,
            ensures
                msg@ == decode_body(ctx@, self@, data@),
            decreases cur@.len(),
        {
            let ghost before = cur@;
            let ghost done = field_views(msg.fields@);
            if cur.len() == 0 {
                assert(done + Seq::<FieldValueView>::empty() =~= done);
                break ;
            }
            proof {
                lemma_parse_varint_bounds(before);
            }
            let original: &[u8] = cur;
            let tag: u64 = match take_varint(&mut cur) {
                Some(tag) => tag,
                None => {
                    msg.garbage = Some(Bytes::copy_from_slice(original));
                    assert(done + Seq::<FieldValueView>::empty() =~= done);
                    break ;
                },
            };
            let number: u64 = tag / 8;
            let wire_type: u8 = (tag % 8) as u8;
            let value = self.decode_field(number, wire_type, &mut cur, ctx);
            msg.fields.push(FieldValue { number, value });
            proof {
                let f = FieldValueView { number, value: value@ };
                let now = field_views(msg.fields@);
                assert(now =~= done.push(f));
                let tail = decode_fields(ctx@, self@, cur@);
                assert(decode_fields(ctx@, self@, before).0 == seq![f] + tail.0);
                assert(now + tail.0 =~= done + (seq![f] + tail.0));
            }
        }
        msg
    }

    /// Decodes the value of the field with the given number and wire type
    /// from the front of `data`.
    pub fn decode_field<'a>(
        &self,
        number: u64,
        wire_type: u8,
        data: &mut &'a [u8],
        ctx: &Context,
    ) -> (r: Value)
        requires
            ctx@.refs_resolved(),
            self@.refs_resolved_in(ctx@),
        ensures
            r@ == decode_field(ctx@, self@, number, wire_type, old(data)@).0,
            decode_field(ctx@, self@, number, wire_type, old(data)@).1 <= old(data)@.len(),
            final(data)@ == old(data)@.skip(
                decode_field(ctx@, self@, number, wire_type, old(data)@).1 as int,
            ),
        decreases old(data)@.len(), 1nat,
    {
        proof {
            lemma_first_match(
                self@.fields,
                |f: crate::context::MessageFieldView| f.number == number,
            );
        }
        match self.get_field(number) {
            Some(field) => {
                if matches!(field.multiplicity, Multiplicity::RepeatedPacked) && wire_type == 2
                    && packable(&field.field_type) {
                    Value::decode_packed(data, wire_type, &field.field_type)
                } else if field.field_type.wire_type() == wire_type {
                    Value::decode(data, wire_type, &field.field_type, ctx)
                } else {
                    Value::decode_unknown(data, wire_type)
                }
            },
            None => Value::decode_unknown(data, wire_type),
        }
    }
}

/// Whether a packed array can hold values of the type.
pub fn packable(vt: &ValueType) -> (r: bool)
    ensures
        r == is_packable(*vt),
{
    match vt {
        ValueType::String | ValueType::Bytes | ValueType::Message(_) | ValueType::Enum(_) => false,
        _ => true,
    }
}

impl Context {
    /// Decode a message.
    ///
    /// `msg` must point at a message of this context, and so must every
    /// message reference in a field of a message of this context.
    pub fn decode(&self, msg: MessageRef, data: &[u8]) -> (r: MessageValue)
        requires
            self@.has_message(msg),
            self@.refs_resolved(),
        ensures
            r@ == decode_message(self@, msg, data@),
    {
        self.resolve_message(msg).decode(data, self)
    }
}

impl Context {
    /// Decodes a message where that can be done: where `msg` points at a
    /// message of this context, and so does every message reference in a
    /// field of a message of this context. Otherwise there is no result.
    pub fn try_decode(&self, msg: MessageRef, data: &[u8]) -> (r: Option<MessageValue>)
        ensures
            match r {
                Some(v) => self@.has_message(msg) && self@.refs_resolved() && v@
                    == decode_message(self@, msg, data@),
                None => !(self@.has_message(msg) && self@.refs_resolved()),
            },
    {
        if self.contains_message(msg) && self.references_resolved() {
            Some(self.decode(msg, data))
        } else {
            None
        }
    }
}

impl MessageValue {
    /// Appends the bytes of the fields, each behind its tag, to `out`.
    pub fn write_fields(&self, out: &mut BytesMut)
        ensures
            bytes_mut_content(*final(out)) == bytes_mut_content(*old(out)) + fields_encoding(self@.fields),
        decreases self, 0nat,
    {
        let ghost all = self@.fields;
        let mut i: usize = 0;
        assert(fields_encoding(all.take(0)) =~= Seq::<u8>::empty());
        assert(bytes_mut_content(*old(out)) + Seq::<u8>::empty() =~= bytes_mut_content(*old(out)));
        while i < self.fields.len()
            invariant
                i <= self.fields.len(),
                all == self@.fields,
                bytes_mut_content(*out) == bytes_mut_content(*old(out)) + fields_encoding(all.take(i as int)),
            decreases self.fields.len() - i,
        {
            let field = &self.fields[i];
            proof {
                lemma_fields_encoding_push(all.take(i as int), all[i as int]);
                assert(all.take(i + 1) =~= all.take(i as int).push(all[i as int]));
                assert(all[i as int] == field@);
            }
            let wire_type: u8 = field.value.wire_type();
            put_varint(field.number as u128 * 8 + wire_type as u128, out);
            field.value.write_payload(out);
            assert(bytes_mut_content(*out) =~= bytes_mut_content(*old(out)) + fields_encoding(all.take(i + 1)));
            i += 1;
        }
        assert(all.take(self.fields.len() as int) =~= all);
    }

    /// Appends the bytes of the message to `out`: the fields, each behind
    /// its tag, and then the garbage, as it was found.
    pub fn write_message(&self, out: &mut BytesMut)
        ensures
            bytes_mut_content(*final(out)) == bytes_mut_content(*old(out)) + message_encoding(self@),
        decreases self, 1nat,
    {
        self.write_fields(out);
        match &self.garbage {
            Some(garbage) => {
                let s: &[u8] = core::ops::Deref::deref(garbage);
                out.extend_from_slice(s);
            },
            None => {},
        }
        assert(bytes_mut_content(*out) =~= bytes_mut_content(*old(out)) + message_encoding(self@));
    }

    /// Encodes a message value into protobuf wire format.
    ///
    /// The garbage at the end of the message, and of every message inside
    /// it, is written back where it was found.
    pub fn encode(&self, ctx: &Context) -> (r: BytesMut)
        ensures
            bytes_mut_content(r) == message_encoding(self@),
    {
        let mut out: BytesMut = BytesMut::new();
        self.write_message(&mut out);
        assert(bytes_mut_content(out) =~= message_encoding(self@));
        out
    }
}

} // verus!
