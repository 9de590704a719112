//! The byte buffer that is handed to the broadcaster: `bytes::Bytes`, and
//! what this library takes on trust about it.

use vstd::prelude::*;

verus! {

/// `bytes::Bytes`, a reference-counted buffer of bytes. Nothing of its
/// inside is visible to the verifier.
#[verifier::external_type_specification]
#[verifier::external_body]
pub struct ExBytes(bytes::Bytes);

/// The bytes that a buffer holds, in order: what `Bytes::deref` shows as a
/// slice.
pub uninterp spec fn contents(buffer: bytes::Bytes) -> Seq<u8>;

/// Calls `Bytes::from(Vec<u8>)`. Taken on trust: the buffer holds the
/// bytes of the vector, unchanged and in order.
#[verifier::external_body]
pub(crate) fn buffer_from(bytes: Vec<u8>) -> (buffer: bytes::Bytes)
    ensures
        contents(buffer) == bytes@,
{
    bytes::Bytes::from(bytes)
}

} // verus!
