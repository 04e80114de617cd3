use bytes::BufMut;
use protofish::context::builder::{
    ContextBuilder, FieldBuilder, FieldTypeBuilder, MessageBuilder, PackageBuilder,
    ProtobufItemBuilder, ProtobufTypeBuilder,
};
use protofish::context::ValueType;
use protofish::decode::{FieldValue, PackedArray};
use protofish::{MessageValue, Value};

#[test]
fn repeated() {
    // message Message { repeated string s = 1; repeated int32 small = 2;
    // repeated int32 large = 3; }
    let repeated_field = |name: &str, number: u64, field_type: ValueType| FieldBuilder {
        repeated: true,
        field_type: FieldTypeBuilder::Builtin(field_type),
        name: name.to_string(),
        number,
        options: vec![],
    };
    let context = ContextBuilder {
        packages: vec![PackageBuilder {
            types: vec![ProtobufItemBuilder::Type(ProtobufTypeBuilder::Message(
                MessageBuilder {
                    name: "Message".to_string(),
                    fields: vec![
                        repeated_field("s", 1, ValueType::String),
                        repeated_field("small", 2, ValueType::Int32),
                        repeated_field("large", 3, ValueType::Int32),
                    ],
                    ..Default::default()
                },
            ))],
            ..Default::default()
        }],
    }
    .build()
    .unwrap();

    let mut payload = bytes::BytesMut::new();

    payload.put_u8(1 << 3 | 2); // String tag.
    payload.put_u8(11);
    payload.put_slice(b"first value");

    payload.put_u8(1 << 3 | 2); // String tag.
    payload.put_u8(12);
    payload.put_slice(b"second value");

    payload.put_u8(2 << 3 | 2); // Packed integer array.
    payload.put_slice(b"\x06"); // Length
    payload.put_slice(b"\x01");
    payload.put_slice(b"\x80\x01");
    payload.put_slice(b"\x80\x80\x02");

    payload.put_u8(3 << 3 | 2); // Packed integer array.
    payload.put_slice(b"\x80\x01"); // Length
    payload.put_slice(&(b"\x01".repeat(128)));

    let msg = context.get_message("Message").unwrap();
    let value = msg.decode(&payload, &context);

    assert_eq!(
        value,
        MessageValue {
            msg_ref: msg.self_ref.clone(),
            garbage: None,
            fields: vec![
                FieldValue {
                    number: 1,
                    value: Value::String("first value".to_string()),
                },
                FieldValue {
                    number: 1,
                    value: Value::String("second value".to_string()),
                },
                FieldValue {
                    number: 2,
                    value: Value::Packed(PackedArray::Int32(vec![1, 1 << 7, 1 << 15])),
                },
                FieldValue {
                    number: 3,
                    value: Value::Packed(PackedArray::Int32(
                        std::iter::repeat(1).take(128).collect()
                    )),
                },
            ]
        }
    );
}
