use protofish::context::builder::{
    ContextBuilder, FieldBuilder, FieldTypeBuilder, MessageBuilder, PackageBuilder,
    ProtobufItemBuilder, ProtobufTypeBuilder,
};
use protofish::context::ValueType;
use protofish::decode::{FieldValue, MessageValue, Value};

#[test]
fn encode_message() {
    // message Message { string s = 1; int32 small = 2; int64 large = 3;
    // sint32 signed = 4; fixed64 fixed = 5; double dbl = 6; bool b = 7;
    // Message child = 10; }
    let scalar = |name: &str, number: u64, field_type: ValueType| FieldBuilder {
        repeated: false,
        field_type: FieldTypeBuilder::Builtin(field_type),
        name: name.to_string(),
        number,
        options: vec![],
    };
    let context = ContextBuilder {
        packages: vec![PackageBuilder {
            types: vec![ProtobufItemBuilder::Type(ProtobufTypeBuilder::Message(
                MessageBuilder {
                    name: "Message".to_string(),
                    fields: vec![
                        scalar("s", 1, ValueType::String),
                        scalar("small", 2, ValueType::Int32),
                        scalar("large", 3, ValueType::Int64),
                        scalar("signed", 4, ValueType::SInt32),
                        scalar("fixed", 5, ValueType::Fixed64),
                        scalar("dbl", 6, ValueType::Double),
                        scalar("b", 7, ValueType::Bool),
                        FieldBuilder {
                            repeated: false,
                            field_type: FieldTypeBuilder::Unknown("Message".to_string()),
                            name: "child".to_string(),
                            number: 10,
                            options: vec![],
                        },
                    ],
                    ..Default::default()
                },
            ))],
            ..Default::default()
        }],
    }
    .build()
    .unwrap();

    let msg = context.get_message("Message").unwrap();

    let original = MessageValue {
        msg_ref: msg.self_ref.clone(),
        garbage: None,
        fields: vec![
            FieldValue {
                number: 1,
                value: Value::String("parent".to_string()),
            },
            FieldValue {
                number: 2,
                value: Value::Int32(123),
            },
            FieldValue {
                number: 3,
                value: Value::Int64(12356),
            },
            FieldValue {
                number: 4,
                value: Value::SInt32(-123),
            },
            FieldValue {
                number: 5,
                value: Value::Fixed64(12356),
            },
            FieldValue {
                number: 6,
                value: Value::Double(1.2345f64.to_bits()),
            },
            FieldValue {
                number: 7,
                value: Value::Bool(true),
            },
            FieldValue {
                number: 10,
                value: Value::Message(Box::new(MessageValue {
                    msg_ref: msg.self_ref.clone(),
                    garbage: None,
                    fields: vec![FieldValue {
                        number: 1,
                        value: Value::String("child".to_string()),
                    }],
                })),
            },
        ],
    };

    let expected = original.encode(&context);
    let decoded = msg.decode(&expected, &context);
    let actual = decoded.encode(&context);

    assert_eq!(original, decoded);
    assert_eq!(expected, actual);
}
