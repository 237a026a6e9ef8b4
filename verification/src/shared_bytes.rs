//! The boundary with the `bytes` crate, whose reference-counted buffer backs every
//! packet.

use bytes::Bytes;
use vstd::prelude::*;

verus! {

/// [`bytes::Bytes`]: an immutable, reference-counted run of bytes.
#[verifier::external_type_specification]
#[verifier::external_body]
pub struct ExBytes(bytes::Bytes);

/// The bytes that a [`Bytes`] holds, in order.
pub uninterp spec fn content(b: Bytes) -> Seq<u8>;

/// [`Bytes::copy_from_slice`]: a new buffer holding exactly the slice's bytes.
#[verifier::external_body]
pub(crate) fn copy_of(slice: &[u8]) -> (b: Bytes)
    ensures
        content(b) == slice@,
{
    Bytes::copy_from_slice(slice)
}

/// `<Bytes as Clone>::clone`: another handle on the same bytes.
pub assume_specification [<Bytes as Clone>::clone](b: &Bytes) -> (r: Bytes)
    ensures
        content(r) == content(*b),
;

/// `<Bytes as Deref>::deref`: the whole buffer as a slice, copying nothing.
#[verifier::external_body]
pub(crate) fn as_slice(b: &Bytes) -> (slice: &[u8])
    ensures
        slice@ == content(*b),
{
    std::ops::Deref::deref(b)
}

} // verus!
