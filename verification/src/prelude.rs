//! The items that most users of the crate need.

pub use crate::context::{
    Context, EnumField, EnumInfo, MessageField, MessageInfo, Multiplicity, Oneof, Rpc, RpcArg,
    Service, TypeInfo, ValueType,
};
pub use crate::decode::{EnumValue, FieldValue, MessageValue, UnknownValue, Value};
