use protofish::context::builder::{
    ContextBuilder, FieldBuilder, FieldTypeBuilder, MessageBuilder, OneofBuilder, PackageBuilder,
    ProtobufItemBuilder, ProtobufTypeBuilder,
};
use protofish::context::ValueType;

fn member(name: &str, number: u64, field_type: ValueType) -> FieldBuilder {
    FieldBuilder {
        repeated: false,
        field_type: FieldTypeBuilder::Builtin(field_type),
        name: name.to_string(),
        number,
        options: vec![],
    }
}

#[test]
fn oneof() {
    // message Message { oneof a { string a1 = 1; string a2 = 2; string a3 =
    // 3; }; oneof b { uint32 b1 = 4; uint32 b2 = 5; uint32 b3 = 6; } }
    let message = MessageBuilder {
        name: "Message".to_string(),
        oneofs: vec![
            OneofBuilder {
                name: "a".to_string(),
                fields: vec![
                    member("a1", 1, ValueType::String),
                    member("a2", 2, ValueType::String),
                    member("a3", 3, ValueType::String),
                ],
                options: vec![],
            },
            OneofBuilder {
                name: "b".to_string(),
                fields: vec![
                    member("b1", 4, ValueType::UInt32),
                    member("b2", 5, ValueType::UInt32),
                    member("b3", 6, ValueType::UInt32),
                ],
                options: vec![],
            },
        ],
        ..Default::default()
    };
    ContextBuilder {
        packages: vec![PackageBuilder {
            types: vec![ProtobufItemBuilder::Type(ProtobufTypeBuilder::Message(message))],
            ..Default::default()
        }],
    }
    .build()
    .unwrap();
}
