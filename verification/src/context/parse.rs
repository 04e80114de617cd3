//! The part of reading schema text that needs no grammar: the names of the
//! builtin field types.

use vstd::prelude::*;

use crate::context::ValueType;
use crate::context::builder::FieldTypeBuilder;
use crate::text::same_text;

verus! {

/// The builtin type with the given name, if the name is that of one.
pub open spec fn builtin_type(name: Seq<char>) -> Option<ValueType> {
    if name == "double"@ {
        Some(ValueType::Double)
    } else if name == "float"@ {
        Some(ValueType::Float)
    } else if name == "int32"@ {
        Some(ValueType::Int32)
    } else if name == "int64"@ {
        Some(ValueType::Int64)
    } else if name == "uint32"@ {
        Some(ValueType::UInt32)
    } else if name == "uint64"@ {
        Some(ValueType::UInt64)
    } else if name == "sint32"@ {
        Some(ValueType::SInt32)
    } else if name == "sint64"@ {
        Some(ValueType::SInt64)
    } else if name == "fixed32"@ {
        Some(ValueType::Fixed32)
    } else if name == "fixed64"@ {
        Some(ValueType::Fixed64)
    } else if name == "sfixed32"@ {
        Some(ValueType::SFixed32)
    } else if name == "sfixed64"@ {
        Some(ValueType::SFixed64)
    } else if name == "bool"@ {
        Some(ValueType::Bool)
    } else if name == "string"@ {
        Some(ValueType::String)
    } else if name == "bytes"@ {
        Some(ValueType::Bytes)
    } else {
        None
    }
}

/// The type of a field from its name in the schema text: the builtin type of
/// that name, or the name itself, to be resolved later.
pub fn parse_field_type(t: &str) -> (r: FieldTypeBuilder)
    ensures
        match builtin_type(t@) {
            Some(vt) => r == FieldTypeBuilder::Builtin(vt),
            None => r is Unknown && r->Unknown_0@ == t@,
        },
{
    if same_text(t, "double") {
        FieldTypeBuilder::Builtin(ValueType::Double)
    } else if same_text(t, "float") {
        FieldTypeBuilder::Builtin(ValueType::Float)
    } else if same_text(t, "int32") {
        FieldTypeBuilder::Builtin(ValueType::Int32)
    } else if same_text(t, "int64") {
        FieldTypeBuilder::Builtin(ValueType::Int64)
    } else if same_text(t, "uint32") {
        FieldTypeBuilder::Builtin(ValueType::UInt32)
    } else if same_text(t, "uint64") {
        FieldTypeBuilder::Builtin(ValueType::UInt64)
    } else if same_text(t, "sint32") {
        FieldTypeBuilder::Builtin(ValueType::SInt32)
    } else if same_text(t, "sint64") {
        FieldTypeBuilder::Builtin(ValueType::SInt64)
    } else if same_text(t, "fixed32") {
        FieldTypeBuilder::Builtin(ValueType::Fixed32)
    } else if same_text(t, "fixed64") {
        FieldTypeBuilder::Builtin(ValueType::Fixed64)
    } else if same_text(t, "sfixed32") {
        FieldTypeBuilder::Builtin(ValueType::SFixed32)
    } else if same_text(t, "sfixed64") {
        FieldTypeBuilder::Builtin(ValueType::SFixed64)
    } else if same_text(t, "bool") {
        FieldTypeBuilder::Builtin(ValueType::Bool)
    } else if same_text(t, "string") {
        FieldTypeBuilder::Builtin(ValueType::String)
    } else if same_text(t, "bytes") {
        FieldTypeBuilder::Builtin(ValueType::Bytes)
    } else {
        FieldTypeBuilder::Unknown(t.to_owned())
    }
}

} // verus!
