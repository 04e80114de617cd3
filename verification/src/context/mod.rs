//! The resolved schema: packages, messages, enums and services, held in flat
//! arenas and linked by index-backed references.
//!
//! Each entity has a mathematical view made of sequences. The contracts of
//! the functions that query and change a [`Context`] are stated over those
//! views.

use std::collections::BTreeMap;

use bytes::Bytes;

use vstd::prelude::*;

use crate::buffer::bytes_content;
use crate::context::table::{fields_in_order, values_in_order};

pub mod api;
pub mod builder;
pub mod modify_api;
pub mod parse;
pub mod references;
pub mod resolve;
pub mod table;
pub mod ordered;
pub mod validity;
pub mod wiring;

verus! {

/// An index into one of the arenas of a [`Context`].
#[derive(Debug, Clone, Copy, PartialEq, Eq, Hash, Structural)]
pub(crate) struct InternalRef(pub(crate) usize);

/// A reference to a message. Can be resolved to `MessageInfo` through a `Context`.
#[derive(Debug, Clone, Copy, PartialEq, Eq, Hash, Structural)]
pub struct MessageRef(pub(crate) InternalRef);

/// A reference to an enum. Can be resolved to `EnumInfo` through a `Context`.
#[derive(Debug, Clone, Copy, PartialEq, Eq, Hash, Structural)]
pub struct EnumRef(pub(crate) InternalRef);

/// A reference to a package.
#[derive(Debug, Clone, Copy, PartialEq, Eq, Hash, Structural)]
pub struct PackageRef(pub(crate) InternalRef);

/// A reference to a service.
#[derive(Debug, Clone, Copy, PartialEq, Eq, Hash, Structural)]
pub struct ServiceRef(pub(crate) InternalRef);

/// A reference to a `oneof` within its message.
#[derive(Debug, Clone, Copy, PartialEq, Eq, Hash, Structural)]
pub struct OneofRef(pub(crate) InternalRef);

impl MessageRef {
    /// The reference to the message at the given position.
    pub open(crate) spec fn at(i: int) -> MessageRef {
        MessageRef(InternalRef(i as usize))
    }

    /// The position of the message in the type arena.
    pub open(crate) spec fn index(self) -> int {
        (self.0).0 as int
    }
}

impl EnumRef {
    /// The reference to the enum at the given position.
    pub open(crate) spec fn at(i: int) -> EnumRef {
        EnumRef(InternalRef(i as usize))
    }

    /// The position of the enum in the type arena.
    pub open(crate) spec fn index(self) -> int {
        (self.0).0 as int
    }
}

impl PackageRef {
    /// The reference to the package at the given position.
    pub open(crate) spec fn at(i: int) -> PackageRef {
        PackageRef(InternalRef(i as usize))
    }

    /// The position of the package in the package arena.
    pub open(crate) spec fn index(self) -> int {
        (self.0).0 as int
    }
}

impl ServiceRef {
    /// The reference to the service at the given position.
    pub open(crate) spec fn at(i: int) -> ServiceRef {
        ServiceRef(InternalRef(i as usize))
    }

    /// The position of the service in the service arena.
    pub open(crate) spec fn index(self) -> int {
        (self.0).0 as int
    }
}

impl OneofRef {
    /// The reference to the `oneof` at the given position.
    pub open(crate) spec fn at(i: int) -> OneofRef {
        OneofRef(InternalRef(i as usize))
    }

    /// The position of the `oneof` in the list of its message.
    pub open(crate) spec fn index(self) -> int {
        (self.0).0 as int
    }
}

/// Error in building a context from schema files.
#[derive(Debug)]
#[non_exhaustive]
pub enum ParseError {
    /// Syntax error in the input files.
    SyntaxError {
        /// Description of the underlying error.
        source: String,
    },
    /// Duplicate type.
    DuplicateType {
        /// Type.
        name: String,
    },
    /// Unknown type reference.
    TypeNotFound {
        /// Type name.
        name: String,
        /// Type that referred to the unknown type.
        context: String,
    },
    /// Wrong kind of type used in a specific context.
    InvalidTypeKind {
        /// Type that is of the wrong kind.
        name: String,
        /// The context where the type was used.
        context: &'static str,
        /// Expected item type.
        expected: ItemType,
        /// Actual item type.
        actual: ItemType,
    },
}

/// Error modifying the context.
#[derive(Debug)]
#[non_exhaustive]
pub enum InsertError {
    /// A type conflicts with an existing type.
    TypeExists {
        /// The previous type that conflicts with the new one.
        original: TypeRef,
    },
}

/// Error modifying a type.
#[derive(Debug)]
#[non_exhaustive]
pub enum MemberInsertError {
    /// A field with the same number already exists.
    NumberConflict,
    /// A field with the same name already exists.
    NameConflict,
    /// A field refers to a oneof that does not exist.
    MissingOneof,
}

/// Error modifying a type.
#[derive(Debug)]
#[non_exhaustive]
pub enum OneofInsertError {
    /// A oneof with the same name already exists.
    NameConflict,
    /// The oneof refers to a field that doesn't exist.
    FieldNotFound {
        /// Field number the Oneof referenced.
        field: u64,
    },
}

/// Type reference that references either message or enum type.
#[derive(Debug, Clone, Copy, PartialEq, Eq, Hash, Structural)]
pub enum TypeRef {
    /// Message type reference.
    Message(MessageRef),
    /// Enum type reference.
    Enum(EnumRef),
}

impl TypeRef {
    /// The position of the type in the type arena.
    pub open spec fn index(self) -> int {
        match self {
            TypeRef::Message(m) => m.index(),
            TypeRef::Enum(e) => e.index(),
        }
    }
}

/// Protobuf item type
#[derive(Clone, Copy, Debug, PartialEq, Eq, Structural)]
pub enum ItemType {
    /// `message` item
    Message,
    /// `enum` item
    Enum,
    /// `service` item
    Service,
}

/// Reference to a type parent.
#[derive(Debug, Clone, Copy, PartialEq, Eq, Structural)]
pub enum TypeParent {
    /// Reference to a package for top-level types.
    Package(PackageRef),
    /// Reference to a message for inner types.
    Message(MessageRef),
}

/// Defines the multiplicity of the field values.
#[derive(Debug, Clone, Copy, PartialEq, Eq, Structural)]
pub enum Multiplicity {
    /// Field is not repeated.
    Single,
    /// Field may be repeated.
    Repeated,
    /// Field is repeated by packing.
    RepeatedPacked,
}

/// Field value types.
#[derive(Debug, Clone, Copy, PartialEq, Eq, Structural)]
pub enum ValueType {
    /// `double`
    Double,
    /// `float`
    Float,
    /// `int32`
    Int32,
    /// `int64`
    Int64,
    /// `uint32`
    UInt32,
    /// `uint64`
    UInt64,
    /// `sint32`
    SInt32,
    /// `sint64`
    SInt64,
    /// `fixed32`
    Fixed32,
    /// `fixed64`
    Fixed64,
    /// `sfixed32`
    SFixed32,
    /// `sfixed64`
    SFixed64,
    /// `bool`
    Bool,
    /// `string`
    String,
    /// `bytes`
    Bytes,
    /// A message type.
    Message(MessageRef),
    /// An enum type.
    Enum(EnumRef),
}

/// Constant value, used for options.
#[derive(Debug, PartialEq)]
pub enum Constant {
    /// An ident `foo.bar.baz`.
    Ident(String),
    /// An integer constant.
    Integer(i64),
    /// A floating point constant, held as the bit pattern of the 64-bit
    /// IEEE 754 number.
    Float(u64),
    /// A string constant.
    ///
    /// The string isn't guaranteed to be well formed UTF-8 so it's stored as
    /// Bytes here.
    String(Bytes),
    /// A boolean constant.
    Bool(bool),
}

/// A single option.
#[derive(Debug, PartialEq)]
pub struct ProtoOption {
    /// Option name.
    pub name: String,
    /// Option value.
    pub value: Constant,
}

/// Message field details.
#[derive(Debug, PartialEq)]
#[non_exhaustive]
pub struct MessageField {
    /// Field name.
    pub name: String,
    /// Field number.
    pub number: u64,
    /// Field type
    pub field_type: ValueType,
    /// Whether the field is single, repeated or packed.
    pub multiplicity: Multiplicity,
    /// Field options.
    pub options: Vec<ProtoOption>,
    /// The `oneof` structure in the parent type if this field is part of a `oneof`.
    pub oneof: Option<OneofRef>,
}

/// Message `oneof` details.
#[derive(Debug, PartialEq)]
#[non_exhaustive]
pub struct Oneof {
    /// Name of the `oneof` structure.
    pub name: String,
    /// Self reference of the `Oneof` in the owning type.
    pub self_ref: OneofRef,
    /// Field numbers of the fields contained in the `oneof`.
    pub fields: Vec<u64>,
    /// Options.
    pub options: Vec<ProtoOption>,
}

/// Enum field details.
#[derive(Debug, PartialEq)]
#[non_exhaustive]
pub struct EnumField {
    /// Enum field name.
    pub name: String,
    /// Enum field value.
    pub value: i64,
    /// Options.
    pub options: Vec<ProtoOption>,
}

/// Message details
#[derive(Debug, PartialEq)]
#[non_exhaustive]
pub struct MessageInfo {
    /// Message name.
    pub name: String,
    /// Full message name, including package and parent type names.
    pub full_name: String,
    /// Parent
    pub parent: TypeParent,
    /// `MessageRef` that references this message.
    pub self_ref: MessageRef,
    /// `oneof` structures defined within the message.
    pub oneofs: Vec<Oneof>,
    /// References to the inner types defined within this message.
    pub inner_types: Vec<TypeRef>,
    /// The fields by their numbers.
    pub(crate) fields: BTreeMap<u64, MessageField>,
}

/// Enum details
#[derive(Debug, PartialEq)]
#[non_exhaustive]
pub struct EnumInfo {
    /// Enum name.
    pub name: String,
    /// Full message name, including package and parent type names.
    pub full_name: String,
    /// Parent
    pub parent: TypeParent,
    /// `EnumRef` that references this enum.
    pub self_ref: EnumRef,
    /// The fields by their values.
    pub(crate) fields: BTreeMap<i64, EnumField>,
}

/// Message or enum type.
#[derive(Debug, PartialEq)]
pub enum TypeInfo {
    /// Message.
    Message(MessageInfo),
    /// Enum.
    Enum(EnumInfo),
}

/// Rpc operation input or output details.
#[derive(Debug, Clone, Copy, PartialEq, Eq, Structural)]
#[non_exhaustive]
pub struct RpcArg {
    /// References to the message type.
    pub message: MessageRef,
    /// True, if this is a stream.
    pub stream: bool,
}

/// Rpc operation
#[derive(Debug, PartialEq)]
#[non_exhaustive]
pub struct Rpc {
    /// Operation name.
    pub name: String,
    /// Input details.
    pub input: RpcArg,
    /// Output details.
    pub output: RpcArg,
    /// Options.
    pub options: Vec<ProtoOption>,
}

/// Service details
#[derive(Debug, PartialEq)]
#[non_exhaustive]
pub struct Service {
    /// Service name.
    pub name: String,
    /// Full service name, including the package name.
    pub full_name: String,
    /// Service self reference.
    pub self_ref: ServiceRef,
    /// Package that contains the service.
    pub parent: PackageRef,
    /// List of `rpc` operations defined in the service.
    pub rpcs: Vec<Rpc>,
    /// Options.
    pub options: Vec<ProtoOption>,
}

/// Package details.
#[derive(Debug, PartialEq)]
pub struct Package {
    /// Package name. None for an anonymous package.
    pub(crate) name: Option<String>,
    /// Package self reference.
    pub(crate) self_ref: PackageRef,
    /// Top level types.
    pub(crate) types: Vec<TypeRef>,
    /// Services.
    pub(crate) services: Vec<usize>,
}

/// Protofish decoding context.
///
/// Contains type information parsed from the files. Required for decoding
/// incoming Protobuf messages.
#[derive(Debug, PartialEq)]
pub struct Context {
    pub(crate) packages: Vec<Package>,
    pub(crate) types: Vec<TypeInfo>,
    pub(crate) services: Vec<Service>,
}

/// The views of the elements of a sequence, in order.
pub open spec fn views<T: View>(s: Seq<T>) -> Seq<T::V> {
    Seq::new(s.len(), |i: int| s[i]@)
}

/// The view of a [`Constant`].
pub enum ConstantView {
    Ident(Seq<char>),
    Integer(i64),
    Float(u64),
    String(Seq<u8>),
    Bool(bool),
}

/// The view of a [`ProtoOption`].
pub struct ProtoOptionView {
    pub name: Seq<char>,
    pub value: ConstantView,
}

/// The view of a [`MessageField`].
pub struct MessageFieldView {
    pub name: Seq<char>,
    pub number: u64,
    pub field_type: ValueType,
    pub multiplicity: Multiplicity,
    pub options: Seq<ProtoOptionView>,
    pub oneof: Option<OneofRef>,
}

/// The view of a [`Oneof`].
pub struct OneofView {
    pub name: Seq<char>,
    pub self_ref: OneofRef,
    pub fields: Seq<u64>,
    pub options: Seq<ProtoOptionView>,
}

/// The view of an [`EnumField`].
pub struct EnumFieldView {
    pub name: Seq<char>,
    pub value: i64,
    pub options: Seq<ProtoOptionView>,
}

/// The view of a [`MessageInfo`].
pub struct MessageInfoView {
    pub name: Seq<char>,
    pub full_name: Seq<char>,
    pub parent: TypeParent,
    pub self_ref: MessageRef,
    pub oneofs: Seq<OneofView>,
    pub inner_types: Seq<TypeRef>,
    pub fields: Seq<MessageFieldView>,
}

/// The view of an [`EnumInfo`].
pub struct EnumInfoView {
    pub name: Seq<char>,
    pub full_name: Seq<char>,
    pub parent: TypeParent,
    pub self_ref: EnumRef,
    pub fields: Seq<EnumFieldView>,
}

/// The view of a [`TypeInfo`].
pub enum TypeInfoView {
    Message(MessageInfoView),
    Enum(EnumInfoView),
}

/// The view of an [`Rpc`].
pub struct RpcView {
    pub name: Seq<char>,
    pub input: RpcArg,
    pub output: RpcArg,
    pub options: Seq<ProtoOptionView>,
}

/// The view of a [`Service`].
pub struct ServiceView {
    pub name: Seq<char>,
    pub full_name: Seq<char>,
    pub self_ref: ServiceRef,
    pub parent: PackageRef,
    pub rpcs: Seq<RpcView>,
    pub options: Seq<ProtoOptionView>,
}

/// The view of a [`Package`].
pub struct PackageView {
    pub name: Option<Seq<char>>,
    pub self_ref: PackageRef,
    pub types: Seq<TypeRef>,
    pub services: Seq<usize>,
}

/// The view of a [`Context`].
pub struct ContextView {
    pub packages: Seq<PackageView>,
    pub types: Seq<TypeInfoView>,
    pub services: Seq<ServiceView>,
}

impl Clone for Constant {
    /// A copy of the constant, with the same view.
    fn clone(&self) -> (r: Self)
        ensures
            r@ == self@,
    {
        match self {
            Constant::Ident(s) => Constant::Ident(s.clone()),
            Constant::Integer(i) => Constant::Integer(*i),
            Constant::Float(f) => Constant::Float(*f),
            Constant::String(b) => Constant::String(b.clone()),
            Constant::Bool(b) => Constant::Bool(*b),
        }
    }
}

impl Clone for ProtoOption {
    /// A copy of the option, with the same view.
    fn clone(&self) -> (r: Self)
        ensures
            r@ == self@,
    {
        ProtoOption { name: self.name.clone(), value: self.value.clone() }
    }
}

/// A copy of the options, with the same views.
pub fn copy_options(options: &Vec<ProtoOption>) -> (r: Vec<ProtoOption>)
    ensures
        views(r@) == views(options@),
{
    let mut out: Vec<ProtoOption> = Vec::new();
    let mut i: usize = 0;
    while i < options.len()
        invariant
            i <= options.len(),
            out@.len() == i,
            forall|j: int| 0 <= j < i ==> out@[j]@ == options@[j]@,
        decreases options.len() - i,
    {
        out.push(options[i].clone());
        i += 1;
    }
    assert(views(out@) =~= views(options@));
    out
}

impl Clone for EnumField {
    /// A copy of the field, with the same view.
    fn clone(&self) -> (r: Self)
        ensures
            r@ == self@,
    {
        EnumField {
            name: self.name.clone(),
            value: self.value,
            options: copy_options(&self.options),
        }
    }
}

impl View for Constant {
    type V = ConstantView;

    open spec fn view(&self) -> ConstantView {
        match self {
            Constant::Ident(s) => ConstantView::Ident(s@),
            Constant::Integer(i) => ConstantView::Integer(*i),
            Constant::Float(f) => ConstantView::Float(*f),
            Constant::String(b) => ConstantView::String(bytes_content(*b)),
            Constant::Bool(b) => ConstantView::Bool(*b),
        }
    }
}

impl View for ProtoOption {
    type V = ProtoOptionView;

    open spec fn view(&self) -> ProtoOptionView {
        ProtoOptionView { name: self.name@, value: self.value@ }
    }
}

impl View for MessageField {
    type V = MessageFieldView;

    open spec fn view(&self) -> MessageFieldView {
        MessageFieldView {
            name: self.name@,
            number: self.number,
            field_type: self.field_type,
            multiplicity: self.multiplicity,
            options: views(self.options@),
            oneof: self.oneof,
        }
    }
}

impl View for Oneof {
    type V = OneofView;

    open spec fn view(&self) -> OneofView {
        OneofView {
            name: self.name@,
            self_ref: self.self_ref,
            fields: self.fields@,
            options: views(self.options@),
        }
    }
}

impl View for EnumField {
    type V = EnumFieldView;

    open spec fn view(&self) -> EnumFieldView {
        EnumFieldView { name: self.name@, value: self.value, options: views(self.options@) }
    }
}

impl View for MessageInfo {
    type V = MessageInfoView;

    open(crate) spec fn view(&self) -> MessageInfoView {
        MessageInfoView {
            name: self.name@,
            full_name: self.full_name@,
            parent: self.parent,
            self_ref: self.self_ref,
            oneofs: views(self.oneofs@),
            inner_types: self.inner_types@,
            fields: fields_in_order(self.fields@),
        }
    }
}

impl View for EnumInfo {
    type V = EnumInfoView;

    open(crate) spec fn view(&self) -> EnumInfoView {
        EnumInfoView {
            name: self.name@,
            full_name: self.full_name@,
            parent: self.parent,
            self_ref: self.self_ref,
            fields: values_in_order(self.fields@),
        }
    }
}

impl View for TypeInfo {
    type V = TypeInfoView;

    open spec fn view(&self) -> TypeInfoView {
        match self {
            TypeInfo::Message(m) => TypeInfoView::Message(m@),
            TypeInfo::Enum(e) => TypeInfoView::Enum(e@),
        }
    }
}

impl View for Rpc {
    type V = RpcView;

    open spec fn view(&self) -> RpcView {
        RpcView {
            name: self.name@,
            input: self.input,
            output: self.output,
            options: views(self.options@),
        }
    }
}

impl View for Service {
    type V = ServiceView;

    open spec fn view(&self) -> ServiceView {
        ServiceView {
            name: self.name@,
            full_name: self.full_name@,
            self_ref: self.self_ref,
            parent: self.parent,
            rpcs: views(self.rpcs@),
            options: views(self.options@),
        }
    }
}

impl View for Package {
    type V = PackageView;

    open(crate) spec fn view(&self) -> PackageView {
        PackageView {
            name: match self.name {
                Some(n) => Some(n@),
                None => None,
            },
            self_ref: self.self_ref,
            types: self.types@,
            services: self.services@,
        }
    }
}

impl View for Context {
    type V = ContextView;

    open(crate) spec fn view(&self) -> ContextView {
        ContextView {
            packages: views(self.packages@),
            types: views(self.types@),
            services: views(self.services@),
        }
    }
}

} // verus!
