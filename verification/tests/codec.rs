use bytes::Bytes;
use protofish::context::builder::{
    ContextBuilder, EnumBuilder, FieldBuilder, FieldTypeBuilder, MessageBuilder, PackageBuilder,
    ProtobufItemBuilder, ProtobufTypeBuilder, RpcArgBuilder, RpcBuilder, ServiceBuilder,
};
use protofish::context::{Constant, Context, EnumField, ProtoOption, ValueType};
use protofish::decode::{EnumValue, FieldValue, MessageValue, PackedArray, UnknownValue, Value};

fn field(name: &str, number: u64, field_type: ValueType) -> FieldBuilder {
    FieldBuilder {
        repeated: false,
        field_type: FieldTypeBuilder::Builtin(field_type),
        name: name.to_string(),
        number,
        options: vec![],
    }
}

fn repeated_field(name: &str, number: u64, field_type: ValueType) -> FieldBuilder {
    FieldBuilder { repeated: true, ..field(name, number, field_type) }
}

fn named_field(name: &str, number: u64, target: &str) -> FieldBuilder {
    FieldBuilder {
        repeated: false,
        field_type: FieldTypeBuilder::Unknown(target.to_string()),
        name: name.to_string(),
        number,
        options: vec![],
    }
}

fn message(name: &str, fields: Vec<FieldBuilder>) -> ProtobufItemBuilder {
    ProtobufItemBuilder::Type(ProtobufTypeBuilder::Message(MessageBuilder {
        name: name.to_string(),
        fields,
        ..Default::default()
    }))
}

fn context(types: Vec<ProtobufItemBuilder>) -> Context {
    ContextBuilder {
        packages: vec![PackageBuilder { types, ..Default::default() }],
    }
    .build()
    .unwrap()
}

fn single(field_type: ValueType) -> Context {
    context(vec![message("Message", vec![field("f", 1, field_type)])])
}

fn decode(ctx: &Context, payload: &[u8]) -> MessageValue {
    assert!(ctx.references_resolved());
    ctx.get_message("Message").unwrap().decode(payload, ctx)
}

fn values(ctx: &Context, payload: &[u8]) -> Vec<(u64, Value)> {
    let decoded = decode(ctx, payload);
    assert_eq!(decoded.garbage, None);
    decoded.fields.into_iter().map(|f| (f.number, f.value)).collect()
}

fn round_trip(ctx: &Context, payload: &[u8]) -> Vec<u8> {
    decode(ctx, payload).encode(ctx).to_vec()
}

#[test]
fn test_zigzag_encoding() {
    let ctx = context(vec![message("Message", vec![])]);

    // Singular
    assert_eq!(Value::SInt32(0).encode(&ctx), Value::Int32(0).encode(&ctx));
    assert_eq!(Value::SInt32(-1).encode(&ctx), Value::Int32(1).encode(&ctx));
    assert_eq!(Value::SInt32(1).encode(&ctx), Value::Int32(2).encode(&ctx));
    assert_eq!(
        Value::SInt64(2147483647).encode(&ctx),
        Value::Int64(4294967294).encode(&ctx)
    );
    assert_eq!(
        Value::SInt64(-2147483648).encode(&ctx),
        Value::Int64(4294967295).encode(&ctx)
    );

    // Packed
    assert_eq!(
        Value::Packed(PackedArray::SInt32(vec![0, -1, 1, -2, 2])).encode(&ctx),
        Value::Packed(PackedArray::Int32(vec![0, 1, 2, 3, 4])).encode(&ctx),
    );
    assert_eq!(
        Value::Packed(PackedArray::SInt64(vec![0, 2147483647, -2147483648])).encode(&ctx),
        Value::Packed(PackedArray::Int64(vec![0, 4294967294, 4294967295])).encode(&ctx),
    );
}

#[test]
fn zigzag_bytes_are_exact() {
    let ctx = context(vec![message("Message", vec![])]);
    let bytes = |v: Value| v.encode(&ctx).unwrap().1.to_vec();
    assert_eq!(bytes(Value::SInt32(0)), vec![0x00]);
    assert_eq!(bytes(Value::SInt32(-1)), vec![0x01]);
    assert_eq!(bytes(Value::SInt32(1)), vec![0x02]);
    assert_eq!(bytes(Value::SInt32(-2)), vec![0x03]);
    assert_eq!(bytes(Value::SInt32(2)), vec![0x04]);
    assert_eq!(bytes(Value::SInt32(-123)), vec![0xf5, 0x01]);
    assert_eq!(bytes(Value::SInt32(i32::MAX)), vec![0xfe, 0xff, 0xff, 0xff, 0x0f]);
    assert_eq!(bytes(Value::SInt32(i32::MIN)), vec![0xff, 0xff, 0xff, 0xff, 0x0f]);
    assert_eq!(
        bytes(Value::SInt64(i64::MIN)),
        vec![0xff, 0xff, 0xff, 0xff, 0xff, 0xff, 0xff, 0xff, 0xff, 0x01]
    );
    assert_eq!(
        bytes(Value::SInt64(i64::MAX)),
        vec![0xfe, 0xff, 0xff, 0xff, 0xff, 0xff, 0xff, 0xff, 0xff, 0x01]
    );
}

#[test]
fn zigzag_values_decode_back() {
    let ctx = single(ValueType::SInt32);
    assert_eq!(values(&ctx, &[0x08, 0x00]), vec![(1, Value::SInt32(0))]);
    assert_eq!(values(&ctx, &[0x08, 0x01]), vec![(1, Value::SInt32(-1))]);
    assert_eq!(values(&ctx, &[0x08, 0x02]), vec![(1, Value::SInt32(1))]);
    assert_eq!(values(&ctx, &[0x08, 0x03]), vec![(1, Value::SInt32(-2))]);
    assert_eq!(
        values(&ctx, &[0x08, 0xff, 0xff, 0xff, 0xff, 0x0f]),
        vec![(1, Value::SInt32(i32::MIN))]
    );
    let ctx = single(ValueType::SInt64);
    assert_eq!(
        values(&ctx, &[0x08, 0xff, 0xff, 0xff, 0xff, 0xff, 0xff, 0xff, 0xff, 0xff, 0x01]),
        vec![(1, Value::SInt64(i64::MIN))]
    );
}

#[test]
fn decodes_requests_and_responses() {
    // package Proto; message Request { string kind = 1; } message Response {
    // int32 distance = 1; } service Fish { rpc Swim( Request ) returns (
    // Response ); }
    let context = ContextBuilder {
        packages: vec![PackageBuilder {
            name: Some("Proto".to_string()),
            imported_types: vec![],
            types: vec![
                message("Request", vec![field("kind", 1, ValueType::String)]),
                message("Response", vec![field("distance", 1, ValueType::Int32)]),
                ProtobufItemBuilder::Service(ServiceBuilder {
                    name: "Fish".to_string(),
                    rpcs: vec![RpcBuilder {
                        name: "Swim".to_string(),
                        input: RpcArgBuilder { stream: false, message: "Request".to_string() },
                        output: RpcArgBuilder { stream: false, message: "Response".to_string() },
                        options: vec![],
                    }],
                    options: vec![],
                }),
            ],
        }],
    }
    .build()
    .unwrap();
    assert!(context.references_resolved());

    let service = context.get_service("Proto.Fish").unwrap();
    let rpc = service.rpc_by_name("Swim").unwrap();

    assert!(context.contains_message(rpc.input.message));
    let input = context.decode(rpc.input.message, b"\x0a\x05Perch");
    assert_eq!(input.fields[0].number, 1);
    assert_eq!(input.fields[0].value, Value::String(String::from("Perch")));

    let output = context.decode(rpc.output.message, b"\x08\xa9\x46");
    assert_eq!(output.fields[0].number, 1);
    assert_eq!(output.fields[0].value, Value::Int32(9001));

    let bytes = b"\x12\x07Unknown\x0a\x0fAtlantic ";
    let request = context.get_message("Proto.Request").unwrap();
    let value = request.decode(bytes, &context);
    assert_eq!(value.fields.len(), 2);
    assert_eq!(value.fields[0].number, 2);
    assert_eq!(
        value.fields[0].value,
        Value::Unknown(UnknownValue::VariableLength(Bytes::from_static(b"Unknown")))
    );
    assert_eq!(value.fields[1].number, 1);
    assert_eq!(
        value.fields[1].value,
        Value::Incomplete(2, Bytes::from_static(b"\x0fAtlantic "))
    );

    let encoded = value.encode(&context);
    assert_eq!(encoded, &bytes[..]);
}

#[test]
fn every_scalar_type_decodes_and_encodes() {
    let cases: Vec<(ValueType, Vec<u8>, Value)> = vec![
        (
            ValueType::Double,
            vec![0x09, 0x8d, 0x97, 0x6e, 0x12, 0x83, 0xc0, 0xf3, 0x3f],
            Value::Double(1.2345f64.to_bits()),
        ),
        (ValueType::Float, vec![0x0d, 0x00, 0x00, 0x80, 0x3f], Value::Float(1.0f32.to_bits())),
        (ValueType::Int32, vec![0x08, 0x96, 0x01], Value::Int32(150)),
        (
            ValueType::Int32,
            vec![0x08, 0xff, 0xff, 0xff, 0xff, 0xff, 0xff, 0xff, 0xff, 0xff, 0x01],
            Value::Int32(-1),
        ),
        (
            ValueType::Int64,
            vec![0x08, 0x80, 0x80, 0x80, 0x80, 0x80, 0x80, 0x80, 0x80, 0x80, 0x01],
            Value::Int64(i64::MIN),
        ),
        (ValueType::UInt32, vec![0x08, 0xff, 0xff, 0xff, 0xff, 0x0f], Value::UInt32(u32::MAX)),
        (
            ValueType::UInt64,
            vec![0x08, 0xff, 0xff, 0xff, 0xff, 0xff, 0xff, 0xff, 0xff, 0xff, 0x01],
            Value::UInt64(u64::MAX),
        ),
        (ValueType::SInt32, vec![0x08, 0xf5, 0x01], Value::SInt32(-123)),
        (ValueType::SInt64, vec![0x08, 0xf6, 0x01], Value::SInt64(123)),
        (ValueType::Fixed32, vec![0x0d, 0x01, 0x02, 0x03, 0x04], Value::Fixed32(0x04030201)),
        (
            ValueType::Fixed64,
            vec![0x09, 0x01, 0x02, 0x03, 0x04, 0x05, 0x06, 0x07, 0x08],
            Value::Fixed64(0x0807060504030201),
        ),
        (ValueType::SFixed32, vec![0x0d, 0xfe, 0xff, 0xff, 0xff], Value::SFixed32(-2)),
        (
            ValueType::SFixed64,
            vec![0x09, 0xfe, 0xff, 0xff, 0xff, 0xff, 0xff, 0xff, 0xff],
            Value::SFixed64(-2),
        ),
        (ValueType::Bool, vec![0x08, 0x01], Value::Bool(true)),
        (ValueType::Bool, vec![0x08, 0x00], Value::Bool(false)),
        (ValueType::String, vec![0x0a, 0x02, 0x68, 0x69], Value::String("hi".to_string())),
        (
            ValueType::Bytes,
            vec![0x0a, 0x03, 0x00, 0xff, 0x80],
            Value::Bytes(Bytes::from_static(&[0x00, 0xff, 0x80])),
        ),
    ];
    for (field_type, payload, expected) in cases {
        let ctx = single(field_type);
        let decoded = decode(&ctx, &payload);
        assert_eq!(decoded.garbage, None);
        assert_eq!(decoded.fields, vec![FieldValue { number: 1, value: expected }]);
        assert_eq!(decoded.encode(&ctx).to_vec(), payload);
    }
}

#[test]
fn enum_values_keep_unknown_numbers() {
    let ctx = context(vec![
        message("Message", vec![named_field("e", 1, "Kind")]),
        ProtobufItemBuilder::Type(ProtobufTypeBuilder::Enum(EnumBuilder {
            name: "Kind".to_string(),
            fields: vec![EnumField::new("zero".to_string(), 0)],
            options: vec![],
        })),
    ]);
    let decoded = decode(&ctx, &[0x08, 0x2a]);
    match &decoded.fields[0].value {
        Value::Enum(EnumValue { enum_ref, value }) => {
            assert_eq!(*value, 42);
            assert!(ctx.contains_enum(*enum_ref));
            assert_eq!(ctx.resolve_enum(*enum_ref).full_name, "Kind");
            assert!(ctx.resolve_enum(*enum_ref).get_field_by_value(42).is_none());
            assert_eq!(ctx.resolve_enum(*enum_ref).get_field_by_value(0).unwrap().name, "zero");
        }
        other => panic!("not an enum value: {:?}", other),
    }
    assert_eq!(decoded.encode(&ctx).to_vec(), vec![0x08, 0x2a]);
}

#[test]
fn nested_messages_decode_recursively() {
    let ctx = context(vec![message(
        "Message",
        vec![field("s", 1, ValueType::String), named_field("child", 10, "Message")],
    )]);
    let payload = [0x52, 0x07, 0x0a, 0x05, b'c', b'h', b'i', b'l', b'd'];
    let decoded = decode(&ctx, &payload);
    let msg_ref = ctx.get_message("Message").unwrap().self_ref;
    assert_eq!(
        decoded,
        MessageValue {
            msg_ref,
            garbage: None,
            fields: vec![FieldValue {
                number: 10,
                value: Value::Message(Box::new(MessageValue {
                    msg_ref,
                    garbage: None,
                    fields: vec![FieldValue {
                        number: 1,
                        value: Value::String("child".to_string())
                    }],
                })),
            }],
        }
    );
    assert_eq!(decoded.encode(&ctx).to_vec(), payload.to_vec());
}

#[test]
fn packed_by_default_and_unpacked_on_request() {
    // repeated int32 f = 1;
    let packed = context(vec![message("Message", vec![repeated_field("f", 1, ValueType::Int32)])]);
    assert_eq!(
        values(&packed, &[0x0a, 0x03, 0x01, 0x02, 0x03]),
        vec![(1, Value::Packed(PackedArray::Int32(vec![1, 2, 3])))]
    );
    // A single value under the wire type of the element type is a single
    // value of that type.
    assert_eq!(values(&packed, &[0x08, 0x01]), vec![(1, Value::Int32(1))]);

    // repeated int32 f = 1 [packed = false];
    let unpacked = context(vec![message(
        "Message",
        vec![FieldBuilder {
            options: vec![ProtoOption { name: "packed".to_string(), value: Constant::Bool(false) }],
            ..repeated_field("f", 1, ValueType::Int32)
        }],
    )]);
    assert_eq!(
        values(&unpacked, &[0x08, 0x01, 0x08, 0x02, 0x08, 0x03]),
        vec![(1, Value::Int32(1)), (1, Value::Int32(2)), (1, Value::Int32(3))]
    );
    // A length-delimited value does not match the field: it is unknown.
    assert_eq!(
        values(&unpacked, &[0x0a, 0x03, 0x01, 0x02, 0x03]),
        vec![(
            1,
            Value::Unknown(UnknownValue::VariableLength(Bytes::from_static(&[1, 2, 3])))
        )]
    );
}

#[test]
fn packed_arrays_of_every_width() {
    let ctx = context(vec![message(
        "Message",
        vec![
            repeated_field("a", 1, ValueType::Fixed32),
            repeated_field("b", 2, ValueType::SFixed64),
            repeated_field("c", 3, ValueType::Bool),
            repeated_field("d", 4, ValueType::SInt32),
            repeated_field("e", 5, ValueType::UInt64),
            repeated_field("f", 6, ValueType::Double),
        ],
    )]);
    let payload: Vec<u8> = vec![
        0x0a, 0x08, 0x01, 0x00, 0x00, 0x00, 0x02, 0x00, 0x00, 0x00, // fixed32 1, 2
        0x12, 0x08, 0xff, 0xff, 0xff, 0xff, 0xff, 0xff, 0xff, 0xff, // sfixed64 -1
        0x1a, 0x03, 0x01, 0x00, 0x01, // bool
        0x22, 0x03, 0x01, 0x02, 0x03, // sint32 -1, 1, -2
        0x2a, 0x03, 0x96, 0x01, 0x00, // uint64 150, 0
        0x32, 0x08, 0x00, 0x00, 0x00, 0x00, 0x00, 0x00, 0xf0, 0x3f, // double 1.0
    ];
    assert_eq!(
        values(&ctx, &payload),
        vec![
            (1, Value::Packed(PackedArray::Fixed32(vec![1, 2]))),
            (2, Value::Packed(PackedArray::SFixed64(vec![-1]))),
            (3, Value::Packed(PackedArray::Bool(vec![true, false, true]))),
            (4, Value::Packed(PackedArray::SInt32(vec![-1, 1, -2]))),
            (5, Value::Packed(PackedArray::UInt64(vec![150, 0]))),
            (6, Value::Packed(PackedArray::Double(vec![1.0f64.to_bits()]))),
        ]
    );
    assert_eq!(round_trip(&ctx, &payload), payload);
}

#[test]
fn a_packed_array_with_a_broken_element_keeps_its_bytes() {
    let ctx = context(vec![message("Message", vec![repeated_field("f", 1, ValueType::Int32)])]);
    let payload = [0x0a, 0x02, 0x01, 0x80, 0x08, 0x05];
    assert_eq!(
        values(&ctx, &payload),
        vec![
            (1, Value::Incomplete(2, Bytes::from_static(&[0x02, 0x01, 0x80]))),
            (1, Value::Int32(5)),
        ]
    );
    assert_eq!(round_trip(&ctx, &payload), payload.to_vec());
    // A length that exceeds what is left takes all that is left.
    let payload = [0x0a, 0x05, 0x01, 0x02];
    assert_eq!(
        values(&ctx, &payload),
        vec![(1, Value::Incomplete(2, Bytes::from_static(&[0x05, 0x01, 0x02])))]
    );
    assert_eq!(round_trip(&ctx, &payload), payload.to_vec());
}

#[test]
fn unknown_fields_survive() {
    let ctx = single(ValueType::Int32);
    let payload: Vec<u8> = vec![
        0x28, 0x96, 0x01, // field 5, varint 150
        0x31, 0x01, 0x02, 0x03, 0x04, 0x05, 0x06, 0x07, 0x08, // field 6, 64-bit
        0x3a, 0x03, b'a', b'b', b'c', // field 7, length-delimited
        0x45, 0x01, 0x02, 0x03, 0x04, // field 8, 32-bit
        0x08, 0x07, // field 1, known
    ];
    let decoded = values(&ctx, &payload);
    assert_eq!(
        decoded,
        vec![
            (5, Value::Unknown(UnknownValue::Varint(150))),
            (6, Value::Unknown(UnknownValue::Fixed64(0x0807060504030201))),
            (7, Value::Unknown(UnknownValue::VariableLength(Bytes::from_static(b"abc")))),
            (8, Value::Unknown(UnknownValue::Fixed32(0x04030201))),
            (1, Value::Int32(7)),
        ]
    );
    let wire_types: Vec<u8> = decoded.iter().map(|(_, v)| v.wire_type()).collect();
    assert_eq!(wire_types, vec![0, 1, 2, 5, 0]);
    assert_eq!(round_trip(&ctx, &payload), payload);
}

#[test]
fn a_known_field_with_another_wire_type_is_unknown() {
    let ctx = single(ValueType::Int32);
    let payload = [0x0d, 0x01, 0x02, 0x03, 0x04];
    assert_eq!(
        values(&ctx, &payload),
        vec![(1, Value::Unknown(UnknownValue::Fixed32(0x04030201)))]
    );
    assert_eq!(round_trip(&ctx, &payload), payload.to_vec());
}

#[test]
fn an_invalid_wire_type_takes_the_rest() {
    let ctx = single(ValueType::Int32);
    for wire_type in [3u8, 4, 6, 7] {
        let payload = [0x08 | wire_type, 0x01, 0x02, 0x03];
        assert_eq!(
            values(&ctx, &payload),
            vec![(
                1,
                Value::Unknown(UnknownValue::Invalid(
                    wire_type,
                    Bytes::from_static(&[0x01, 0x02, 0x03])
                ))
            )]
        );
        assert_eq!(round_trip(&ctx, &payload), payload.to_vec());
    }
}

#[test]
fn a_truncated_tag_is_garbage() {
    let ctx = single(ValueType::Int32);
    let decoded = decode(&ctx, &[0x08, 0x01, 0x80]);
    assert_eq!(decoded.fields, vec![FieldValue { number: 1, value: Value::Int32(1) }]);
    assert_eq!(decoded.garbage, Some(Bytes::from_static(&[0x80])));
    // The garbage is written back behind the fields.
    assert_eq!(decoded.encode(&ctx).to_vec(), vec![0x08, 0x01, 0x80]);

    let decoded = decode(&ctx, &[0x80]);
    assert_eq!(decoded.fields, vec![]);
    assert_eq!(decoded.garbage, Some(Bytes::from_static(&[0x80])));
    assert_eq!(decoded.encode(&ctx).to_vec(), vec![0x80]);

    let decoded = decode(&ctx, &[0x80, 0x80]);
    assert_eq!(decoded.fields, vec![]);
    assert_eq!(decoded.garbage, Some(Bytes::from_static(&[0x80, 0x80])));
    assert_eq!(decoded.encode(&ctx).to_vec(), vec![0x80, 0x80]);

    // A tag of more than ten bytes is no tag.
    let long = [0x80, 0x80, 0x80, 0x80, 0x80, 0x80, 0x80, 0x80, 0x80, 0x80, 0x00];
    let decoded = decode(&ctx, &long);
    assert_eq!(decoded.fields, vec![]);
    assert_eq!(decoded.garbage, Some(Bytes::copy_from_slice(&long)));
    assert_eq!(decoded.encode(&ctx).to_vec(), long.to_vec());

    let decoded = decode(&ctx, &[]);
    assert_eq!(decoded.fields, vec![]);
    assert_eq!(decoded.garbage, None);
    assert_eq!(decoded.encode(&ctx).to_vec(), Vec::<u8>::new());
}

#[test]
fn garbage_inside_a_nested_message_is_kept() {
    let ctx = context(vec![message(
        "Message",
        vec![field("a", 1, ValueType::Int32), named_field("child", 10, "Message")],
    )]);
    // The child ends in a byte that is no tag; the parent goes on behind it
    // and ends in two such bytes.
    let payload = [0x52, 0x03, 0x08, 0x01, 0x80, 0x08, 0x07, 0xff, 0xff];
    let decoded = decode(&ctx, &payload);
    assert_eq!(decoded.fields.len(), 2);
    match &decoded.fields[0].value {
        Value::Message(inner) => {
            assert_eq!(inner.fields, vec![FieldValue { number: 1, value: Value::Int32(1) }]);
            assert_eq!(inner.garbage, Some(Bytes::from_static(&[0x80])));
        }
        other => panic!("not a message: {:?}", other),
    }
    assert_eq!(decoded.fields[1], FieldValue { number: 1, value: Value::Int32(7) });
    assert_eq!(decoded.garbage, Some(Bytes::from_static(&[0xff, 0xff])));
    assert_eq!(decoded.encode(&ctx).to_vec(), payload.to_vec());
}

#[test]
fn a_truncated_value_keeps_its_field() {
    let ctx = single(ValueType::Int32);
    let decoded = decode(&ctx, &[0x08, 0x01, 0x08, 0x80]);
    assert_eq!(
        decoded.fields,
        vec![
            FieldValue { number: 1, value: Value::Int32(1) },
            FieldValue { number: 1, value: Value::Incomplete(0, Bytes::from_static(&[0x80])) },
        ]
    );
    assert_eq!(decoded.garbage, None);
    assert_eq!(decoded.encode(&ctx).to_vec(), vec![0x08, 0x01, 0x08, 0x80]);

    // Unknown fields that are cut short.
    for payload in [
        vec![0x28u8, 0x80],
        vec![0x31, 0x01, 0x02],
        vec![0x3a, 0x05, 0x01],
        vec![0x45, 0x01],
        vec![0x28],
    ] {
        let decoded = decode(&ctx, &payload);
        assert_eq!(decoded.garbage, None);
        assert_eq!(decoded.fields.len(), 1);
        assert_eq!(decoded.fields[0].number, (payload[0] >> 3) as u64);
        assert_eq!(
            decoded.fields[0].value,
            Value::Incomplete(payload[0] & 7, Bytes::copy_from_slice(&payload[1..]))
        );
        assert_eq!(decoded.encode(&ctx).to_vec(), payload);
    }
}

#[test]
fn numbers_out_of_range_are_kept_as_bytes() {
    let ctx = single(ValueType::UInt32);
    let payload = [0x08, 0x80, 0x80, 0x80, 0x80, 0x10];
    assert_eq!(
        values(&ctx, &payload),
        vec![(1, Value::Incomplete(0, Bytes::copy_from_slice(&payload[1..])))]
    );
    assert_eq!(round_trip(&ctx, &payload), payload.to_vec());

    let ctx = single(ValueType::Int32);
    let payload = [0x08, 0x80, 0x80, 0x80, 0x80, 0x08];
    assert_eq!(
        values(&ctx, &payload),
        vec![(1, Value::Incomplete(0, Bytes::copy_from_slice(&payload[1..])))]
    );

    let ctx = single(ValueType::SInt32);
    let payload = [0x08, 0x80, 0x80, 0x80, 0x80, 0x10];
    assert_eq!(
        values(&ctx, &payload),
        vec![(1, Value::Incomplete(0, Bytes::copy_from_slice(&payload[1..])))]
    );

    // A varint of ten bytes that does not fit in 64 bits.
    let ctx = single(ValueType::UInt64);
    let payload = [0x08, 0xff, 0xff, 0xff, 0xff, 0xff, 0xff, 0xff, 0xff, 0xff, 0x02];
    assert_eq!(
        values(&ctx, &payload),
        vec![(1, Value::Incomplete(0, Bytes::copy_from_slice(&payload[1..])))]
    );
    assert_eq!(round_trip(&ctx, &payload), payload.to_vec());
}

#[test]
fn what_encoding_does_not_reproduce() {
    // A varint with a padding group.
    let ctx = single(ValueType::Int32);
    assert_eq!(values(&ctx, &[0x08, 0x81, 0x00]), vec![(1, Value::Int32(1))]);
    assert_eq!(round_trip(&ctx, &[0x08, 0x81, 0x00]), vec![0x08, 0x01]);

    // A bool other than 0 and 1.
    let ctx = single(ValueType::Bool);
    assert_eq!(values(&ctx, &[0x08, 0x02]), vec![(1, Value::Bool(true))]);
    assert_eq!(round_trip(&ctx, &[0x08, 0x02]), vec![0x08, 0x01]);

    // A string that is not valid UTF-8.
    let ctx = single(ValueType::String);
    assert_eq!(
        values(&ctx, &[0x0a, 0x02, b'a', 0xff]),
        vec![(1, Value::String("a\u{fffd}".to_string()))]
    );
    assert_eq!(
        round_trip(&ctx, &[0x0a, 0x02, b'a', 0xff]),
        vec![0x0a, 0x04, b'a', 0xef, 0xbf, 0xbd]
    );
}

#[test]
fn values_made_by_hand_encode() {
    let ctx = context(vec![message("Message", vec![])]);
    let msg_ref = ctx.get_message("Message").unwrap().self_ref;
    let value = MessageValue {
        msg_ref,
        garbage: Some(Bytes::from_static(b"tail")),
        fields: vec![
            FieldValue { number: 1, value: Value::UInt64(300) },
            FieldValue { number: 2, value: Value::Unknown(UnknownValue::Varint(1 << 70)) },
            FieldValue { number: 3, value: Value::Bytes(Bytes::from_static(&[9, 8])) },
            FieldValue { number: 16, value: Value::Fixed32(1) },
            FieldValue { number: 4, value: Value::Packed(PackedArray::Bool(vec![])) },
            FieldValue {
                number: 5,
                value: Value::Enum(EnumValue { enum_ref: ctx_enum(), value: -1 }),
            },
        ],
    };
    let mut expected: Vec<u8> = vec![0x08, 0xac, 0x02];
    expected.extend_from_slice(&[0x10, 0x80, 0x80, 0x80, 0x80, 0x80, 0x80, 0x80, 0x80, 0x80, 0x80, 0x01]);
    expected.extend_from_slice(&[0x1a, 0x02, 0x09, 0x08]);
    expected.extend_from_slice(&[0x85, 0x01, 0x01, 0x00, 0x00, 0x00]);
    expected.extend_from_slice(&[0x22, 0x00]);
    expected.extend_from_slice(&[0x28, 0xff, 0xff, 0xff, 0xff, 0xff, 0xff, 0xff, 0xff, 0xff, 0x01]);
    expected.extend_from_slice(b"tail");
    assert_eq!(value.encode(&ctx).to_vec(), expected);
}

fn ctx_enum() -> protofish::context::EnumRef {
    let ctx = context(vec![ProtobufItemBuilder::Type(ProtobufTypeBuilder::Enum(EnumBuilder {
        name: "Kind".to_string(),
        fields: vec![],
        options: vec![],
    }))]);
    match ctx.get_type("Kind").unwrap() {
        protofish::context::TypeInfo::Enum(e) => e.self_ref,
        _ => unreachable!(),
    }
}

#[test]
fn fields_come_out_in_stream_order() {
    let ctx = context(vec![message(
        "Message",
        vec![field("a", 1, ValueType::Int32), field("b", 2, ValueType::Int32)],
    )]);
    assert_eq!(
        values(&ctx, &[0x10, 0x05, 0x08, 0x06, 0x10, 0x07]),
        vec![(2, Value::Int32(5)), (1, Value::Int32(6)), (2, Value::Int32(7))]
    );
}
