use protofish::context::{
    Context, EnumField, EnumInfo, InsertError, MemberInsertError, MessageField, MessageInfo,
    Multiplicity, Oneof, OneofInsertError, Package, TypeInfo, TypeParent, TypeRef, ValueType,
};

fn context_with_package(name: Option<&str>) -> (Context, TypeParent) {
    let mut ctx = Context::new();
    let package = ctx.insert_package(Package::new(name.map(|n| n.to_string()))).unwrap();
    (ctx, TypeParent::Package(package))
}

#[test]
fn a_new_context_is_empty() {
    let ctx = Context::new();
    assert!(ctx.get_type("Message").is_none());
    assert!(ctx.get_message("Message").is_none());
    assert!(ctx.get_service("Service").is_none());
    assert!(ctx.references_resolved());
    assert_eq!(ctx, Context::new());
}

#[test]
fn packages_are_told_apart_by_name() {
    let mut ctx = Context::new();
    let named = ctx.insert_package(Package::new(Some("a".to_string()))).unwrap();
    let anonymous = ctx.insert_package(Package::new(None)).unwrap();
    let other = ctx.insert_package(Package::new(Some("b".to_string()))).unwrap();
    assert_ne!(named, anonymous);
    assert_ne!(named, other);
    assert_eq!(ctx.insert_package(Package::new(Some("a".to_string()))), Err(named));
    assert_eq!(ctx.insert_package(Package::new(None)), Err(anonymous));
    assert_eq!(ctx.insert_package(Package::new(Some("b".to_string()))), Err(other));
    assert!(ctx.contains_package(other));
    assert_eq!(ctx.resolve_package(named).name(), Some("a"));
    assert_eq!(ctx.resolve_package(named).self_ref(), named);
    assert_eq!(ctx.resolve_package(anonymous).name(), None);
    assert!(ctx.resolve_package(other).types().is_empty());
    assert!(ctx.resolve_package(other).services().is_empty());
    assert!(!Context::new().contains_package(named));
}

#[test]
fn full_names_come_from_the_parent() {
    let (mut ctx, package) = context_with_package(Some("pkg"));
    let outer = ctx.insert_message(MessageInfo::new("Outer".to_string(), package)).unwrap();
    let inner = ctx
        .insert_message(MessageInfo::new("Inner".to_string(), TypeParent::Message(outer)))
        .unwrap();
    let kind = ctx
        .insert_enum(EnumInfo::new("Kind".to_string(), TypeParent::Message(inner)))
        .unwrap();
    assert_eq!(ctx.resolve_message(outer).full_name, "pkg.Outer");
    assert_eq!(ctx.resolve_message(inner).full_name, "pkg.Outer.Inner");
    assert_eq!(ctx.resolve_enum(kind).full_name, "pkg.Outer.Inner.Kind");
    assert_eq!(ctx.resolve_message(outer).self_ref, outer);
    assert_eq!(ctx.resolve_enum(kind).self_ref, kind);
    assert_eq!(ctx.resolve_message(outer).inner_types, vec![TypeRef::Message(inner)]);
    assert_eq!(ctx.resolve_message(inner).inner_types, vec![TypeRef::Enum(kind)]);
    assert_eq!(ctx.get_message("pkg.Outer.Inner").unwrap().self_ref, inner);
    assert!(ctx.get_message("pkg.Outer.Inner.Kind").is_none());
    assert!(ctx.get_message("Outer").is_none());
    match ctx.get_type("pkg.Outer.Inner.Kind") {
        Some(TypeInfo::Enum(e)) => assert_eq!(e.name, "Kind"),
        other => panic!("not an enum: {:?}", other),
    }
    assert_eq!(ctx.get_type("pkg.Outer").unwrap().parent(), package);
    assert!(ctx.contains_message(inner));
    assert!(ctx.contains_enum(kind));

    let (mut ctx, package) = context_with_package(None);
    let top = ctx.insert_message(MessageInfo::new("Top".to_string(), package)).unwrap();
    assert_eq!(ctx.resolve_message(top).full_name, "Top");
}

#[test]
fn a_second_type_of_the_same_name_is_refused() {
    let (mut ctx, package) = context_with_package(Some("pkg"));
    let first = ctx.insert_message(MessageInfo::new("T".to_string(), package)).unwrap();

    let (mut same, same_package) = context_with_package(Some("pkg"));
    same.insert_message(MessageInfo::new("T".to_string(), same_package)).unwrap();

    match ctx.insert_message(MessageInfo::new("T".to_string(), package)) {
        Err(InsertError::TypeExists { original }) => {
            assert_eq!(original, TypeRef::Message(first))
        }
        other => panic!("not refused: {:?}", other),
    }
    // Nothing of the refused type is visible.
    assert_eq!(ctx, same);

    match ctx.insert_enum(EnumInfo::new("T".to_string(), package)) {
        Err(InsertError::TypeExists { original }) => {
            assert_eq!(original, TypeRef::Message(first))
        }
        other => panic!("not refused: {:?}", other),
    }
    assert_eq!(ctx, same);

    let kind = ctx.insert_enum(EnumInfo::new("K".to_string(), package)).unwrap();
    match ctx.insert_message(MessageInfo::new("K".to_string(), package)) {
        Err(InsertError::TypeExists { original }) => assert_eq!(original, TypeRef::Enum(kind)),
        other => panic!("not refused: {:?}", other),
    }
    // The same name under another parent is another type.
    assert!(ctx
        .insert_message(MessageInfo::new("T".to_string(), TypeParent::Message(first)))
        .is_ok());
    assert!(ctx.get_message("pkg.T.T").is_some());
}

#[test]
fn fields_are_checked_before_they_are_added() {
    let package = context_with_package(None).1;
    let mut message = MessageInfo::new("M".to_string(), package);
    message.add_field(MessageField::new("b".to_string(), 2, ValueType::Int32)).unwrap();
    message.add_field(MessageField::new("c".to_string(), 3, ValueType::Int32)).unwrap();
    message.add_field(MessageField::new("a".to_string(), 1, ValueType::Int32)).unwrap();

    let before: Vec<(u64, String)> =
        message.iter_fields().iter().map(|f| (f.number, f.name.clone())).collect();
    assert_eq!(
        before,
        vec![(1, "a".to_string()), (2, "b".to_string()), (3, "c".to_string())]
    );

    assert!(matches!(
        message.add_field(MessageField::new("z".to_string(), 2, ValueType::Bool)),
        Err(MemberInsertError::NumberConflict)
    ));
    assert!(matches!(
        message.add_field(MessageField::new("a".to_string(), 9, ValueType::Bool)),
        Err(MemberInsertError::NameConflict)
    ));
    // The number is looked at before the name.
    assert!(matches!(
        message.add_field(MessageField::new("a".to_string(), 1, ValueType::Bool)),
        Err(MemberInsertError::NumberConflict)
    ));
    let oneof = message.add_oneof(Oneof::new("o".to_string())).unwrap();
    let mut other = MessageInfo::new("Other".to_string(), package);
    other.add_oneof(Oneof::new("first".to_string())).unwrap();
    let foreign = other.add_oneof(Oneof::new("second".to_string())).unwrap();
    let mut dangling = MessageField::new("d".to_string(), 4, ValueType::Bool);
    dangling.oneof = Some(foreign);
    assert!(matches!(message.add_field(dangling), Err(MemberInsertError::MissingOneof)));

    let after: Vec<(u64, String)> =
        message.iter_fields().iter().map(|f| (f.number, f.name.clone())).collect();
    assert_eq!(before, after);
    assert_eq!(message.get_oneof(oneof).unwrap().fields, Vec::<u64>::new());
    assert!(message.get_oneof(foreign).is_none());

    let mut member = MessageField::new("d".to_string(), 4, ValueType::Bool);
    member.oneof = Some(oneof);
    member.multiplicity = Multiplicity::Repeated;
    message.add_field(member).unwrap();
    assert_eq!(message.get_oneof(oneof).unwrap().fields, vec![4]);
    assert_eq!(message.get_field(4).unwrap().multiplicity, Multiplicity::Repeated);
    assert_eq!(message.get_field_by_name("d").unwrap().number, 4);
}

#[test]
fn oneofs_are_checked_before_they_are_added() {
    let package = context_with_package(None).1;
    let mut message = MessageInfo::new("M".to_string(), package);
    message.add_field(MessageField::new("a".to_string(), 1, ValueType::Int32)).unwrap();
    message.add_field(MessageField::new("b".to_string(), 2, ValueType::Int32)).unwrap();
    let first = message.add_oneof(Oneof::new("first".to_string())).unwrap();

    assert!(matches!(
        message.add_oneof(Oneof::new("first".to_string())),
        Err(OneofInsertError::NameConflict)
    ));
    let mut listing = Oneof::new("second".to_string());
    listing.fields = vec![2, 7, 8];
    match message.add_oneof(listing) {
        Err(OneofInsertError::FieldNotFound { field }) => assert_eq!(field, 7),
        other => panic!("not refused: {:?}", other),
    }
    assert_eq!(message.oneofs.len(), 1);
    assert_eq!(message.get_field(2).unwrap().oneof, None);

    let mut listing = Oneof::new("second".to_string());
    listing.fields = vec![2, 1];
    let second = message.add_oneof(listing).unwrap();
    assert_ne!(first, second);
    assert_eq!(message.get_field(1).unwrap().oneof, Some(second));
    assert_eq!(message.get_field(2).unwrap().oneof, Some(second));
    assert_eq!(message.get_oneof(second).unwrap().fields, vec![2, 1]);
    assert_eq!(message.get_oneof(second).unwrap().self_ref, second);
    assert_eq!(message.get_oneof(first).unwrap().name, "first");
}

#[test]
fn a_oneof_can_be_wired_from_either_side() {
    let package = context_with_package(None).1;
    let member = |name: &str, number: u64| MessageField::new(name.to_string(), number, ValueType::Bool);

    let mut by_reference = MessageInfo::new("M".to_string(), package);
    by_reference.add_field(member("plain", 5)).unwrap();
    let r = by_reference.add_oneof(Oneof::new("o".to_string())).unwrap();
    for (name, number) in [("c", 30), ("a", 10), ("b", 20)] {
        let mut field = member(name, number);
        field.oneof = Some(r);
        by_reference.add_field(field).unwrap();
    }

    let mut by_list = MessageInfo::new("M".to_string(), package);
    by_list.add_field(member("plain", 5)).unwrap();
    for (name, number) in [("c", 30), ("a", 10), ("b", 20)] {
        by_list.add_field(member(name, number)).unwrap();
    }
    let mut oneof = Oneof::new("o".to_string());
    oneof.fields = vec![30, 10, 20];
    assert_eq!(by_list.add_oneof(oneof).unwrap(), r);

    assert_eq!(by_reference, by_list);
    assert_eq!(by_list.get_oneof(r).unwrap().fields, vec![30, 10, 20]);
}

#[test]
fn enum_fields_are_checked_before_they_are_added() {
    let package = context_with_package(None).1;
    let mut kind = EnumInfo::new("K".to_string(), package);
    kind.add_field(EnumField::new("one".to_string(), 1)).unwrap();
    kind.add_field(EnumField::new("minus".to_string(), -5)).unwrap();
    kind.add_field(EnumField::new("zero".to_string(), 0)).unwrap();
    assert!(matches!(
        kind.add_field(EnumField::new("other".to_string(), 1)),
        Err(MemberInsertError::NumberConflict)
    ));
    assert!(matches!(
        kind.add_field(EnumField::new("one".to_string(), 2)),
        Err(MemberInsertError::NameConflict)
    ));
    let fields: Vec<(i64, &str)> =
        kind.iter_fields().iter().map(|f| (f.value, f.name.as_str())).collect();
    assert_eq!(fields, vec![(-5, "minus"), (0, "zero"), (1, "one")]);
    assert_eq!(kind.get_field_by_value(-5).unwrap().name, "minus");
    assert!(kind.get_field_by_value(2).is_none());
}

#[test]
fn dangling_references_are_found() {
    let (mut ctx, package) = context_with_package(None);
    let first = ctx.insert_message(MessageInfo::new("First".to_string(), package)).unwrap();
    let mut second = MessageInfo::new("Second".to_string(), package);
    second
        .add_field(MessageField::new("ok".to_string(), 1, ValueType::Message(first)))
        .unwrap();
    assert!(second.references_resolved_in(&ctx));
    let second = ctx.insert_message(second).unwrap();
    assert!(ctx.references_resolved());

    let mut third = MessageInfo::new("Third".to_string(), package);
    third
        .add_field(MessageField::new("self".to_string(), 1, ValueType::Message(third.self_ref)))
        .unwrap();
    // Before it is inserted the message refers to whatever stands first.
    assert!(third.references_resolved_in(&ctx));
    assert!(!third.references_resolved_in(&Context::new()));

    let kind = ctx.insert_enum(EnumInfo::new("Kind".to_string(), package)).unwrap();
    assert!(ctx.contains_enum(kind));
    assert!(!Context::new().contains_enum(kind));
    assert!(ctx.contains_message(second));
    assert!(!Context::new().contains_message(second));
}

#[test]
fn wire_types_of_the_value_types() {
    let (mut ctx, package) = context_with_package(None);
    let m = ctx.insert_message(MessageInfo::new("M".to_string(), package)).unwrap();
    let e = ctx.insert_enum(EnumInfo::new("E".to_string(), package)).unwrap();
    let expected = [
        (ValueType::Double, 1),
        (ValueType::Float, 5),
        (ValueType::Int32, 0),
        (ValueType::Int64, 0),
        (ValueType::UInt32, 0),
        (ValueType::UInt64, 0),
        (ValueType::SInt32, 0),
        (ValueType::SInt64, 0),
        (ValueType::Fixed32, 5),
        (ValueType::Fixed64, 1),
        (ValueType::SFixed32, 5),
        (ValueType::SFixed64, 1),
        (ValueType::Bool, 0),
        (ValueType::String, 2),
        (ValueType::Bytes, 2),
        (ValueType::Message(m), 2),
        (ValueType::Enum(e), 0),
    ];
    for (value_type, wire_type) in expected {
        assert_eq!(value_type.wire_type(), wire_type);
    }
}

#[test]
fn decoding_is_refused_where_references_dangle() {
    let (mut ctx, package) = context_with_package(None);
    let mut first = MessageInfo::new("First".to_string(), package);
    first.add_field(MessageField::new("n".to_string(), 1, ValueType::Int32)).unwrap();
    let first = ctx.insert_message(first).unwrap();
    let decoded = ctx.try_decode(first, &[0x08, 0x05]).unwrap();
    assert_eq!(decoded.msg_ref, first);
    assert_eq!(decoded.fields.len(), 1);
    assert_eq!(decoded.fields[0].value, protofish::Value::Int32(5));
    assert_eq!(decoded.clone(), decoded);

    // A reference from another context.
    let (mut other, other_package) = context_with_package(None);
    other.insert_message(MessageInfo::new("A".to_string(), other_package)).unwrap();
    other.insert_message(MessageInfo::new("B".to_string(), other_package)).unwrap();
    let foreign = other
        .insert_message(MessageInfo::new("C".to_string(), other_package))
        .unwrap();
    assert!(ctx.try_decode(foreign, &[0x08, 0x05]).is_none());

    // A field that refers to a message that the context does not have.
    let mut second = MessageInfo::new("Second".to_string(), package);
    second
        .add_field(MessageField::new("bad".to_string(), 1, ValueType::Message(foreign)))
        .unwrap();
    ctx.insert_message(second).unwrap();
    assert!(!ctx.references_resolved());
    assert!(ctx.try_decode(first, &[0x08, 0x05]).is_none());
}
