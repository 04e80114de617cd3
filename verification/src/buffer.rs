//! What the library assumes of the byte buffers of the `bytes` crate.
//!
//! `Bytes` and `BytesMut` are opaque to the verifier. Their contents are
//! named by two specification functions, and each operation that the library
//! uses is given a contract over those names. None of this is proved.

use bytes::{Bytes, BytesMut};

use vstd::prelude::*;

verus! {

/// `bytes::Bytes`, an immutable byte buffer that is cheap to clone. Nothing
/// of what is inside it is visible to the verifier.
#[verifier::external_type_specification]
#[verifier::external_body]
pub struct ExBytes(bytes::Bytes);

/// `bytes::BytesMut`, a byte buffer that can grow. Nothing of what is inside
/// it is visible to the verifier.
#[verifier::external_type_specification]
#[verifier::external_body]
pub struct ExBytesMut(bytes::BytesMut);

/// The bytes that a `Bytes` buffer holds, in order.
pub uninterp spec fn bytes_content(b: Bytes) -> Seq<u8>;

/// The bytes that a `BytesMut` buffer holds, in order.
pub uninterp spec fn bytes_mut_content(b: BytesMut) -> Seq<u8>;

/// `Bytes::copy_from_slice` copies the slice into a fresh buffer: the buffer
/// holds exactly the bytes of the slice.
pub assume_specification[ bytes::Bytes::copy_from_slice ](data: &[u8]) -> (r: Bytes)
    ensures
        bytes_content(r) == data@,
;

/// Cloning a `Bytes` gives a second handle to the same bytes.
pub assume_specification[ <bytes::Bytes as Clone>::clone ](b: &Bytes) -> (r: Bytes)
    ensures
        bytes_content(r) == bytes_content(*b),
;

/// Dereferencing a `Bytes` gives its contents as a slice.
pub assume_specification<'a>[ <bytes::Bytes as core::ops::Deref>::deref ](b: &'a Bytes) -> (r:
    &'a [u8])
    ensures
        r@ == bytes_content(*b),
;

/// `BytesMut::new` gives a buffer of length 0: it holds no bytes.
pub assume_specification[ bytes::BytesMut::new ]() -> (r: BytesMut)
    ensures
        bytes_mut_content(r) == Seq::<u8>::empty(),
;

/// `BytesMut::extend_from_slice` appends the bytes of the slice: the buffer
/// then holds what it held, followed by the slice. The call returns unless
/// memory for the longer buffer cannot be had; that case lies outside this
/// contract, as it lies outside the one that `Vec::extend_from_slice` has.
pub assume_specification[ bytes::BytesMut::extend_from_slice ](b: &mut BytesMut, extend: &[u8])
    ensures
        bytes_mut_content(*final(b)) == bytes_mut_content(*old(b)) + extend@,
;

/// Dereferencing a `BytesMut` gives its contents as a slice.
pub assume_specification<'a>[ <bytes::BytesMut as core::ops::Deref>::deref ](
    b: &'a BytesMut,
) -> (r: &'a [u8])
    ensures
        r@ == bytes_mut_content(*b),
;

} // verus!
