use protofish::context::builder::{
    ContextBuilder, EnumBuilder, FieldBuilder, FieldTypeBuilder, InnerTypeBuilder, MessageBuilder,
    OneofBuilder, PackageBuilder, ProtobufItemBuilder, ProtobufTypeBuilder, RpcArgBuilder,
    RpcBuilder, ServiceBuilder,
};
use protofish::context::{
    Constant, Context, EnumField, ItemType, Multiplicity, ParseError, ProtoOption, TypeInfo,
    TypeParent, TypeRef, ValueType,
};

fn scalar(name: &str, number: u64, field_type: ValueType) -> FieldBuilder {
    FieldBuilder {
        repeated: false,
        field_type: FieldTypeBuilder::Builtin(field_type),
        name: name.to_string(),
        number,
        options: vec![],
    }
}

fn reference(name: &str, number: u64, target: &str) -> FieldBuilder {
    FieldBuilder {
        repeated: false,
        field_type: FieldTypeBuilder::Unknown(target.to_string()),
        name: name.to_string(),
        number,
        options: vec![],
    }
}

fn empty_message(name: &str) -> MessageBuilder {
    MessageBuilder { name: name.to_string(), ..Default::default() }
}

fn top(message: MessageBuilder) -> ProtobufItemBuilder {
    ProtobufItemBuilder::Type(ProtobufTypeBuilder::Message(message))
}

fn top_enum(name: &str, fields: Vec<EnumField>) -> ProtobufItemBuilder {
    ProtobufItemBuilder::Type(ProtobufTypeBuilder::Enum(EnumBuilder {
        name: name.to_string(),
        fields,
        options: vec![],
    }))
}

fn file(name: Option<&str>, types: Vec<ProtobufItemBuilder>) -> PackageBuilder {
    PackageBuilder { name: name.map(|n| n.to_string()), imported_types: vec![], types }
}

fn build(files: Vec<PackageBuilder>) -> Result<Context, ParseError> {
    ContextBuilder { packages: files }.build()
}

fn field_type(ctx: &Context, message: &str, field: &str) -> ValueType {
    ctx.get_message(message).unwrap().get_field_by_name(field).unwrap().field_type
}

fn message_type(ctx: &Context, full_name: &str) -> ValueType {
    ValueType::Message(ctx.get_message(full_name).unwrap().self_ref)
}

#[test]
fn basic_package() {
    // message Message {}
    let ctx = build(vec![file(None, vec![top(empty_message("Message"))])]).unwrap();

    let m = ctx.get_message("Message").unwrap();
    assert_eq!(format!("{:?}", m.parent), "Package(PackageRef(InternalRef(0)))");
    let pkg_ref = match m.parent {
        TypeParent::Package(p) => p,
        _ => panic!("Not a package reference: {:?}", m.parent),
    };
    assert!(ctx.contains_package(pkg_ref));
    assert_eq!(ctx.resolve_package(pkg_ref).name(), None);
}

#[test]
fn basic_multiple_package() {
    // package First; message Message {}
    // package Second; message Message {}
    let ctx = build(vec![
        file(Some("First"), vec![top(empty_message("Message"))]),
        file(Some("Second"), vec![top(empty_message("Message"))]),
    ])
    .unwrap();

    let m = ctx.get_message("First.Message").unwrap();
    let pkg_ref = match m.parent {
        TypeParent::Package(p) => p,
        _ => panic!("Not a package reference: {:?}", m.parent),
    };
    assert!(ctx.contains_package(pkg_ref));
    let pkg = ctx.resolve_package(pkg_ref);
    assert_eq!(format!("{:?}", m.parent), "Package(PackageRef(InternalRef(0)))");
    assert_eq!(pkg.name(), Some("First"));
    assert_eq!(pkg.types().len(), 1);

    let m = ctx.get_message("Second.Message").unwrap();
    let pkg_ref = match m.parent {
        TypeParent::Package(p) => p,
        _ => panic!("Not a package reference: {:?}", m.parent),
    };
    assert!(ctx.contains_package(pkg_ref));
    let pkg = ctx.resolve_package(pkg_ref);
    assert_eq!(format!("{:?}", m.parent), "Package(PackageRef(InternalRef(1)))");
    assert_eq!(pkg.name(), Some("Second"));
    assert_eq!(pkg.types().len(), 1);
}

#[test]
fn files_of_one_package_merge() {
    let ctx = build(vec![
        file(Some("pkg"), vec![top(empty_message("A"))]),
        file(None, vec![top(empty_message("B"))]),
        file(Some("pkg"), vec![top(empty_message("C")), top_enum("E", vec![])]),
    ])
    .unwrap();
    let a = ctx.get_message("pkg.A").unwrap();
    let b = ctx.get_message("B").unwrap();
    let c = ctx.get_message("pkg.C").unwrap();
    assert_eq!(a.parent, c.parent);
    assert_ne!(a.parent, b.parent);
    let pkg = match a.parent {
        TypeParent::Package(p) => ctx.resolve_package(p),
        _ => panic!("not in a package"),
    };
    assert_eq!(pkg.name(), Some("pkg"));
    assert_eq!(pkg.types().len(), 3);
    assert_eq!(pkg.types()[0], TypeRef::Message(a.self_ref));
    assert_eq!(pkg.types()[1], TypeRef::Message(c.self_ref));
    match ctx.get_type("pkg.E").unwrap() {
        TypeInfo::Enum(e) => assert_eq!(pkg.types()[2], TypeRef::Enum(e.self_ref)),
        _ => panic!("not an enum"),
    }
    assert_eq!(format!("{:?}", b.parent), "Package(PackageRef(InternalRef(1)))");
    assert_eq!(format!("{:?}", c.self_ref), "MessageRef(InternalRef(2))");
}

#[test]
fn the_closest_scope_wins() {
    // package pkg;
    // message Outer { message Inner {} Inner a = 1; .pkg.Inner b = 2;
    //   message Deep { Inner c = 1; Outer d = 2; } }
    // message Inner {}
    // message Other { Inner e = 1; Outer.Inner f = 2; }
    let outer = MessageBuilder {
        name: "Outer".to_string(),
        fields: vec![reference("a", 1, "Inner"), reference("b", 2, ".pkg.Inner")],
        inner_types: vec![
            InnerTypeBuilder::Message(empty_message("Inner")),
            InnerTypeBuilder::Message(MessageBuilder {
                name: "Deep".to_string(),
                fields: vec![reference("c", 1, "Inner"), reference("d", 2, "Outer")],
                ..Default::default()
            }),
        ],
        ..Default::default()
    };
    let other = MessageBuilder {
        name: "Other".to_string(),
        fields: vec![reference("e", 1, "Inner"), reference("f", 2, "Outer.Inner")],
        ..Default::default()
    };
    let ctx = build(vec![file(
        Some("pkg"),
        vec![top(outer), top(empty_message("Inner")), top(other)],
    )])
    .unwrap();

    let nested = message_type(&ctx, "pkg.Outer.Inner");
    let top_level = message_type(&ctx, "pkg.Inner");
    assert_ne!(nested, top_level);
    assert_eq!(field_type(&ctx, "pkg.Outer", "a"), nested);
    assert_eq!(field_type(&ctx, "pkg.Outer", "b"), top_level);
    assert_eq!(field_type(&ctx, "pkg.Outer.Deep", "c"), nested);
    assert_eq!(field_type(&ctx, "pkg.Outer.Deep", "d"), message_type(&ctx, "pkg.Outer"));
    assert_eq!(field_type(&ctx, "pkg.Other", "e"), top_level);
    assert_eq!(field_type(&ctx, "pkg.Other", "f"), nested);
    assert!(ctx.references_resolved());
}

#[test]
fn a_reference_may_come_before_its_target() {
    let ctx = build(vec![
        file(
            Some("a"),
            vec![top(MessageBuilder {
                name: "User".to_string(),
                fields: vec![reference("later", 1, "b.Later"), reference("kind", 2, "b.Kind")],
                ..Default::default()
            })],
        ),
        file(
            Some("b"),
            vec![top(empty_message("Later")), top_enum("Kind", vec![])],
        ),
    ])
    .unwrap();
    assert_eq!(field_type(&ctx, "a.User", "later"), message_type(&ctx, "b.Later"));
    match (field_type(&ctx, "a.User", "kind"), ctx.get_type("b.Kind").unwrap()) {
        (ValueType::Enum(r), TypeInfo::Enum(e)) => assert_eq!(r, e.self_ref),
        other => panic!("not an enum: {:?}", other),
    }
}

#[test]
fn duplicate_types_are_refused() {
    // Two files with the same package and the same type.
    let result = build(vec![
        file(Some("pkg"), vec![top(empty_message("Message"))]),
        file(Some("pkg"), vec![top(empty_message("Message"))]),
    ]);
    match result {
        Err(ParseError::DuplicateType { name }) => assert_eq!(name, "pkg.Message"),
        other => panic!("not a duplicate: {:?}", other),
    }

    // A message and an enum of one name in one file.
    match build(vec![file(None, vec![top(empty_message("T")), top_enum("T", vec![])])]) {
        Err(ParseError::DuplicateType { name }) => assert_eq!(name, "T"),
        other => panic!("not a duplicate: {:?}", other),
    }

    // Two inner types of one name; the first duplicate is the one reported.
    let outer = MessageBuilder {
        name: "Outer".to_string(),
        inner_types: vec![
            InnerTypeBuilder::Message(empty_message("Inner")),
            InnerTypeBuilder::Enum(EnumBuilder { name: "Inner".to_string(), ..Default::default() }),
        ],
        ..Default::default()
    };
    match build(vec![file(
        Some("pkg"),
        vec![top(outer), top(empty_message("Z")), top(empty_message("Z"))],
    )]) {
        Err(ParseError::DuplicateType { name }) => assert_eq!(name, "pkg.Outer.Inner"),
        other => panic!("not a duplicate: {:?}", other),
    }

    // A service and a message share one space of names.
    let service = ProtobufItemBuilder::Service(ServiceBuilder {
        name: "S".to_string(),
        ..Default::default()
    });
    match build(vec![file(None, vec![service, top(empty_message("S"))])]) {
        Err(ParseError::DuplicateType { name }) => assert_eq!(name, "S"),
        other => panic!("not a duplicate: {:?}", other),
    }

    // The same name in two packages is no duplicate.
    assert!(build(vec![
        file(Some("a"), vec![top(empty_message("Message"))]),
        file(Some("b"), vec![top(empty_message("Message"))]),
    ])
    .is_ok());
}

#[test]
fn unknown_types_are_reported_with_their_user() {
    let user = MessageBuilder {
        name: "User".to_string(),
        fields: vec![scalar("ok", 1, ValueType::Int32), reference("bad", 2, "Missing")],
        ..Default::default()
    };
    match build(vec![file(Some("pkg"), vec![top(user)])]) {
        Err(ParseError::TypeNotFound { name, context }) => {
            assert_eq!(name, "Missing");
            assert_eq!(context, "pkg.User");
        }
        other => panic!("not a missing type: {:?}", other),
    }

    // A member of a oneof.
    let user = MessageBuilder {
        name: "User".to_string(),
        oneofs: vec![OneofBuilder {
            name: "o".to_string(),
            fields: vec![reference("bad", 2, "Nowhere")],
            options: vec![],
        }],
        ..Default::default()
    };
    match build(vec![file(None, vec![top(user)])]) {
        Err(ParseError::TypeNotFound { name, context }) => {
            assert_eq!(name, "Nowhere");
            assert_eq!(context, "User");
        }
        other => panic!("not a missing type: {:?}", other),
    }

    // The input of an operation.
    let service = ProtobufItemBuilder::Service(ServiceBuilder {
        name: "S".to_string(),
        rpcs: vec![RpcBuilder {
            name: "call".to_string(),
            input: RpcArgBuilder { stream: false, message: "In".to_string() },
            output: RpcArgBuilder { stream: false, message: "Out".to_string() },
            options: vec![],
        }],
        options: vec![],
    });
    match build(vec![file(Some("pkg"), vec![service, top(empty_message("Out"))])]) {
        Err(ParseError::TypeNotFound { name, context }) => {
            assert_eq!(name, "In");
            assert_eq!(context, "pkg.S");
        }
        other => panic!("not a missing type: {:?}", other),
    }
}

#[test]
fn operations_take_and_give_messages_only() {
    let service = |input: &str, output: &str| {
        ProtobufItemBuilder::Service(ServiceBuilder {
            name: "S".to_string(),
            rpcs: vec![RpcBuilder {
                name: "call".to_string(),
                input: RpcArgBuilder { stream: true, message: input.to_string() },
                output: RpcArgBuilder { stream: false, message: output.to_string() },
                options: vec![],
            }],
            options: vec![],
        })
    };
    let types = |s: ProtobufItemBuilder| vec![s, top(empty_message("M")), top_enum("E", vec![])];

    match build(vec![file(None, types(service("M", "E")))]) {
        Err(ParseError::InvalidTypeKind { name, context, expected, actual }) => {
            assert_eq!(name, "E");
            assert_eq!(context, "service input/output");
            assert_eq!(expected, ItemType::Message);
            assert_eq!(actual, ItemType::Enum);
        }
        other => panic!("not a wrong kind: {:?}", other),
    }
    match build(vec![file(None, types(service("S", "M")))]) {
        Err(ParseError::InvalidTypeKind { name, actual, .. }) => {
            assert_eq!(name, "S");
            assert_eq!(actual, ItemType::Service);
        }
        other => panic!("not a wrong kind: {:?}", other),
    }

    let ctx = build(vec![file(Some("pkg"), types(service("M", ".pkg.M")))]).unwrap();
    let s = ctx.get_service("pkg.S").unwrap();
    assert_eq!(s.name, "S");
    assert_eq!(s.full_name, "pkg.S");
    assert_eq!(format!("{:?}", s.self_ref), "ServiceRef(InternalRef(0))");
    assert_eq!(TypeParent::Package(s.parent), ctx.get_message("pkg.M").unwrap().parent);
    let rpc = s.rpc_by_name("call").unwrap();
    assert_eq!(rpc.input.message, ctx.get_message("pkg.M").unwrap().self_ref);
    assert!(rpc.input.stream);
    assert_eq!(rpc.output.message, ctx.get_message("pkg.M").unwrap().self_ref);
    assert!(!rpc.output.stream);
    assert!(s.rpc_by_name("other").is_none());
    assert!(ctx.get_service("S").is_none());
    assert_eq!(ctx.resolve_package(s.parent).services(), &vec![0]);
}

#[test]
fn a_field_cannot_have_a_service_as_its_type() {
    let service = ProtobufItemBuilder::Service(ServiceBuilder {
        name: "S".to_string(),
        ..Default::default()
    });
    let user = MessageBuilder {
        name: "User".to_string(),
        fields: vec![reference("bad", 1, "S")],
        ..Default::default()
    };
    match build(vec![file(None, vec![service, top(user)])]) {
        Err(ParseError::InvalidTypeKind { name, context, expected, actual }) => {
            assert_eq!(name, "S");
            assert_eq!(context, "field type");
            assert_eq!(expected, ItemType::Message);
            assert_eq!(actual, ItemType::Service);
        }
        other => panic!("not a wrong kind: {:?}", other),
    }
}

#[test]
fn repeated_fields_are_packed_where_they_can_be() {
    let option = |value: Constant| vec![ProtoOption { name: "packed".to_string(), value }];
    let repeated = |name: &str, number: u64, field_type: ValueType, options: Vec<ProtoOption>| {
        FieldBuilder { repeated: true, options, ..scalar(name, number, field_type) }
    };
    let user = MessageBuilder {
        name: "User".to_string(),
        fields: vec![
            scalar("single", 1, ValueType::Int32),
            repeated("by_default", 2, ValueType::Int32, vec![]),
            repeated("packed", 3, ValueType::Fixed64, option(Constant::Bool(true))),
            repeated("unpacked", 4, ValueType::Bool, option(Constant::Bool(false))),
            repeated("odd", 5, ValueType::Double, option(Constant::Integer(1))),
            repeated("text", 6, ValueType::String, option(Constant::Bool(true))),
            repeated("blob", 7, ValueType::Bytes, vec![]),
            FieldBuilder { repeated: true, ..reference("message", 8, "User") },
            FieldBuilder { repeated: true, ..reference("kind", 9, "Kind") },
            FieldBuilder {
                options: option(Constant::Bool(true)),
                ..scalar("not_repeated", 10, ValueType::Int32)
            },
            FieldBuilder {
                repeated: true,
                options: vec![
                    ProtoOption { name: "other".to_string(), value: Constant::Bool(false) },
                    ProtoOption { name: "packed".to_string(), value: Constant::Bool(false) },
                    ProtoOption { name: "packed".to_string(), value: Constant::Bool(true) },
                ],
                ..scalar("first_wins", 11, ValueType::SInt64)
            },
        ],
        ..Default::default()
    };
    let ctx = build(vec![file(None, vec![top(user), top_enum("Kind", vec![])])]).unwrap();
    let user = ctx.get_message("User").unwrap();
    let found: Vec<(u64, Multiplicity)> =
        user.iter_fields().iter().map(|f| (f.number, f.multiplicity)).collect();
    assert_eq!(
        found,
        vec![
            (1, Multiplicity::Single),
            (2, Multiplicity::RepeatedPacked),
            (3, Multiplicity::RepeatedPacked),
            (4, Multiplicity::Repeated),
            (5, Multiplicity::Repeated),
            (6, Multiplicity::Repeated),
            (7, Multiplicity::Repeated),
            (8, Multiplicity::Repeated),
            (9, Multiplicity::Repeated),
            (10, Multiplicity::Single),
            (11, Multiplicity::Repeated),
        ]
    );
    assert_eq!(user.get_field(11).unwrap().options.len(), 3);
    assert_eq!(
        user.get_field(3).unwrap().options,
        vec![ProtoOption { name: "packed".to_string(), value: Constant::Bool(true) }]
    );
}

#[test]
fn fields_are_ordered_by_number() {
    let user = MessageBuilder {
        name: "User".to_string(),
        fields: vec![
            scalar("c", 30, ValueType::Int32),
            scalar("a", 10, ValueType::Int32),
            scalar("first", 20, ValueType::Int32),
        ],
        oneofs: vec![
            OneofBuilder {
                name: "x".to_string(),
                fields: vec![scalar("x2", 25, ValueType::Bool), scalar("x1", 5, ValueType::Bool)],
                options: vec![],
            },
            OneofBuilder {
                name: "y".to_string(),
                fields: vec![scalar("second", 20, ValueType::String)],
                options: vec![],
            },
        ],
        ..Default::default()
    };
    let ctx = build(vec![file(None, vec![top(user)])]).unwrap();
    let user = ctx.get_message("User").unwrap();
    let names: Vec<(u64, &str)> =
        user.iter_fields().iter().map(|f| (f.number, f.name.as_str())).collect();
    // A later field takes the place of an earlier one with the same number.
    assert_eq!(names, vec![(5, "x1"), (10, "a"), (20, "second"), (25, "x2"), (30, "c")]);
    assert_eq!(user.oneofs.len(), 2);
    assert_eq!(user.oneofs[0].name, "x");
    assert_eq!(user.oneofs[0].fields, vec![5, 25]);
    assert_eq!(user.oneofs[1].fields, vec![20]);
    assert_eq!(user.get_field(25).unwrap().oneof, Some(user.oneofs[0].self_ref));
    assert_eq!(user.get_field(20).unwrap().oneof, Some(user.oneofs[1].self_ref));
    assert_eq!(user.get_field(10).unwrap().oneof, None);
    assert_eq!(user.get_oneof(user.oneofs[1].self_ref).unwrap().name, "y");
    assert!(user.get_field(6).is_none());
    assert!(user.get_field_by_name("first").is_none());
    assert_eq!(user.get_field_by_name("second").unwrap().field_type, ValueType::String);
}

#[test]
fn enum_fields_are_ordered_by_value() {
    let ctx = build(vec![file(
        None,
        vec![top_enum(
            "Kind",
            vec![
                EnumField::new("two".to_string(), 2),
                EnumField::new("minus".to_string(), -1),
                EnumField::new("zero".to_string(), 0),
                EnumField::new("alias".to_string(), 2),
            ],
        )],
    )])
    .unwrap();
    let kind = match ctx.get_type("Kind").unwrap() {
        TypeInfo::Enum(e) => e,
        _ => panic!("not an enum"),
    };
    let fields: Vec<(i64, &str)> =
        kind.iter_fields().iter().map(|f| (f.value, f.name.as_str())).collect();
    assert_eq!(fields, vec![(-1, "minus"), (0, "zero"), (2, "alias")]);
    assert_eq!(kind.get_field_by_value(2).unwrap().name, "alias");
    assert!(kind.get_field_by_value(1).is_none());
    assert!(ctx.get_message("Kind").is_none());
    assert_eq!(ctx.get_type("Kind").unwrap().name(), "Kind");
    assert_eq!(ctx.get_type("Kind").unwrap().full_name(), "Kind");
}

#[test]
fn inner_types_are_listed_by_their_message() {
    let outer = MessageBuilder {
        name: "Outer".to_string(),
        inner_types: vec![
            InnerTypeBuilder::Message(MessageBuilder {
                name: "A".to_string(),
                inner_types: vec![InnerTypeBuilder::Enum(EnumBuilder {
                    name: "Deep".to_string(),
                    ..Default::default()
                })],
                ..Default::default()
            }),
            InnerTypeBuilder::Enum(EnumBuilder { name: "B".to_string(), ..Default::default() }),
        ],
        ..Default::default()
    };
    let ctx = build(vec![file(Some("p.q"), vec![top(outer)])]).unwrap();
    let outer = ctx.get_message("p.q.Outer").unwrap();
    let a = ctx.get_message("p.q.Outer.A").unwrap();
    let b = match ctx.get_type("p.q.Outer.B").unwrap() {
        TypeInfo::Enum(e) => e,
        _ => panic!("not an enum"),
    };
    let deep = ctx.get_type("p.q.Outer.A.Deep").unwrap();
    assert_eq!(outer.inner_types, vec![TypeRef::Message(a.self_ref), TypeRef::Enum(b.self_ref)]);
    assert_eq!(a.parent, TypeParent::Message(outer.self_ref));
    assert_eq!(b.parent, TypeParent::Message(outer.self_ref));
    assert_eq!(deep.parent(), TypeParent::Message(a.self_ref));
    assert_eq!(a.inner_types.len(), 1);
    assert_eq!(format!("{:?}", a.inner_types[0]), "Enum(EnumRef(InternalRef(2)))");
    assert_eq!(format!("{:?}", b.self_ref), "EnumRef(InternalRef(3))");
    let pkg = match outer.parent {
        TypeParent::Package(p) => ctx.resolve_package(p),
        _ => panic!("not in a package"),
    };
    assert_eq!(pkg.types(), &vec![TypeRef::Message(outer.self_ref)]);
}

#[test]
fn plain_schemas_leave_no_reference_dangling() {
    let plain = ContextBuilder {
        packages: vec![file(
            Some("pkg"),
            vec![top(MessageBuilder {
                name: "Outer".to_string(),
                fields: vec![scalar("a", 1, ValueType::Int32), reference("b", 2, "Outer")],
                inner_types: vec![InnerTypeBuilder::Message(MessageBuilder {
                    name: "Inner".to_string(),
                    oneofs: vec![OneofBuilder {
                        name: "o".to_string(),
                        fields: vec![reference("c", 1, "Outer")],
                        options: vec![],
                    }],
                    ..Default::default()
                })],
                ..Default::default()
            })],
        )],
    };
    assert!(plain.is_plain());
    assert!(plain.packages[0].is_plain());
    assert!(plain.build().unwrap().references_resolved());

    // A builtin type that refers to a message is not plain, wherever it
    // stands.
    let target = build(vec![file(None, vec![top(empty_message("M"))])])
        .unwrap()
        .get_message("M")
        .unwrap()
        .self_ref;
    let with_reference = |deep: bool| {
        let odd = scalar("odd", 1, ValueType::Message(target));
        let inner = MessageBuilder {
            name: "Inner".to_string(),
            oneofs: vec![OneofBuilder {
                name: "o".to_string(),
                fields: if deep { vec![odd.clone()] } else { vec![] },
                options: vec![],
            }],
            ..Default::default()
        };
        ContextBuilder {
            packages: vec![
                file(None, vec![top_enum("E", vec![])]),
                file(
                    None,
                    vec![top(MessageBuilder {
                        name: "Outer".to_string(),
                        fields: if deep { vec![] } else { vec![odd] },
                        inner_types: vec![InnerTypeBuilder::Message(inner)],
                        ..Default::default()
                    })],
                ),
            ],
        }
    };
    assert!(!with_reference(false).is_plain());
    assert!(!with_reference(true).is_plain());
    assert!(with_reference(true).packages[0].is_plain());
    // The reference points at the enum that stands first.
    assert!(!with_reference(true).build().unwrap().references_resolved());
}
