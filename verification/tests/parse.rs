use protofish::context::builder::{
    ContextBuilder, FieldBuilder, FieldTypeBuilder, MessageBuilder, PackageBuilder,
    ProtobufItemBuilder, ProtobufTypeBuilder,
};
use protofish::context::parse::parse_field_type;
use protofish::context::{
    Context, MessageField, MessageInfo, Multiplicity, Package, TypeParent, ValueType,
};

fn declared(repeated: bool, kind: &str, name: &str, number: u64) -> FieldBuilder {
    FieldBuilder {
        repeated,
        field_type: parse_field_type(kind),
        name: name.to_string(),
        number,
        options: vec![],
    }
}

#[test]
fn parse() {
    // message Message { string s = 1; repeated bytes b = 2; optional int64
    // large = 3; repeated sint32 signed = 4; Message child = 10; }
    let context = ContextBuilder {
        packages: vec![PackageBuilder {
            types: vec![ProtobufItemBuilder::Type(ProtobufTypeBuilder::Message(
                MessageBuilder {
                    name: "Message".to_string(),
                    fields: vec![
                        declared(false, "string", "s", 1),
                        declared(true, "bytes", "b", 2),
                        declared(false, "int64", "large", 3),
                        declared(true, "sint32", "signed", 4),
                        declared(false, "Message", "child", 10),
                    ],
                    ..Default::default()
                },
            ))],
            ..Default::default()
        }],
    }
    .build()
    .unwrap();

    let mut expected = Context::new();
    let package = expected.insert_package(Package::new(None)).unwrap();
    let mut message = MessageInfo::new("Message".to_string(), TypeParent::Package(package));

    message
        .add_field(MessageField::new("s".to_string(), 1, ValueType::String))
        .unwrap();

    let mut b_field = MessageField::new("b".to_string(), 2, ValueType::Bytes);
    b_field.multiplicity = Multiplicity::Repeated;

    let mut large_field = MessageField::new("large".to_string(), 3, ValueType::Int64);
    large_field.multiplicity = Multiplicity::Single;

    let mut signed_field = MessageField::new("signed".to_string(), 4, ValueType::SInt32);
    signed_field.multiplicity = Multiplicity::RepeatedPacked;

    let child_field = MessageField::new(
        "child".to_string(),
        10,
        ValueType::Message(message.self_ref),
    );

    message.add_field(b_field).unwrap();
    message.add_field(large_field).unwrap();
    message.add_field(signed_field).unwrap();
    message.add_field(child_field).unwrap();

    expected.insert_message(message).unwrap();

    assert_eq!(expected, context);
}

#[test]
fn field_kinds() {
    assert_eq!(parse_field_type("double"), FieldTypeBuilder::Builtin(ValueType::Double));
    assert_eq!(parse_field_type("float"), FieldTypeBuilder::Builtin(ValueType::Float));
    assert_eq!(parse_field_type("int32"), FieldTypeBuilder::Builtin(ValueType::Int32));
    assert_eq!(parse_field_type("int64"), FieldTypeBuilder::Builtin(ValueType::Int64));
    assert_eq!(parse_field_type("uint32"), FieldTypeBuilder::Builtin(ValueType::UInt32));
    assert_eq!(parse_field_type("uint64"), FieldTypeBuilder::Builtin(ValueType::UInt64));
    assert_eq!(parse_field_type("sint32"), FieldTypeBuilder::Builtin(ValueType::SInt32));
    assert_eq!(parse_field_type("sint64"), FieldTypeBuilder::Builtin(ValueType::SInt64));
    assert_eq!(parse_field_type("fixed32"), FieldTypeBuilder::Builtin(ValueType::Fixed32));
    assert_eq!(parse_field_type("fixed64"), FieldTypeBuilder::Builtin(ValueType::Fixed64));
    assert_eq!(parse_field_type("sfixed32"), FieldTypeBuilder::Builtin(ValueType::SFixed32));
    assert_eq!(parse_field_type("sfixed64"), FieldTypeBuilder::Builtin(ValueType::SFixed64));
    assert_eq!(parse_field_type("bool"), FieldTypeBuilder::Builtin(ValueType::Bool));
    assert_eq!(parse_field_type("string"), FieldTypeBuilder::Builtin(ValueType::String));
    assert_eq!(parse_field_type("bytes"), FieldTypeBuilder::Builtin(ValueType::Bytes));
    assert_eq!(
        parse_field_type("Int32"),
        FieldTypeBuilder::Unknown("Int32".to_string())
    );
    assert_eq!(
        parse_field_type(".pkg.Message"),
        FieldTypeBuilder::Unknown(".pkg.Message".to_string())
    );
}
