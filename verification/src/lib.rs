//! Decoding of protocol buffer payloads against schemas that are loaded at
//! run time, with the parts of a payload that cannot be interpreted kept as
//! raw bytes.
//!
//! A [`Context`] holds the resolved schema. It is made from the unresolved
//! trees of the schema files by [`context::builder::ContextBuilder::build`],
//! or by hand with the insert operations of [`context`]. A payload is decoded
//! against a message of the context into a [`MessageValue`], and a
//! [`MessageValue`] is encoded back into bytes.

pub mod buffer;
pub mod conformance;
pub mod context;
pub mod decode;
pub mod deviation;
pub mod format;
pub mod prelude;
pub mod roundtrip;
pub mod search;
pub mod text;
pub mod wire;

pub use context::Context;
pub use decode::{MessageValue, UnknownValue, Value};
