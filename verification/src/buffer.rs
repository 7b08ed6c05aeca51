//! The fixed-capacity block buffer that blocks are sealed and opened in.

use aead::arrayvec::ArrayVec;
use vstd::prelude::*;

verus! {

/// Bytes of one block on the wire: ciphertext and tag together.
pub const BLOCK: usize = 8192;

/// Bytes of authentication tag that sealing adds to a block.
pub const TAG_LEN: usize = 16;

/// Bytes of plaintext that one block carries at most.
pub const MAX_CAP: usize = 8176;

/// `arrayvec::ArrayVec`, as `aead` hands it on: a vector of at most `CAP` items that
/// lives where it is declared. Nothing inside it is visible here.
#[verifier::external_type_specification]
#[verifier::external_body]
#[verifier::reject_recursive_types(T)]
pub struct ExArrayVec<T, const CAP: usize>(ArrayVec<T, CAP>);

/// `aead::Error`: the one error of the cipher calls, which says nothing of its cause.
#[verifier::external_type_specification]
#[verifier::external_body]
pub struct ExAeadError(aead::Error);

/// The bytes that a block buffer holds, first to last.
pub uninterp spec fn held(buffer: ArrayVec<u8, 8192>) -> Seq<u8>;

/// `ArrayVec::new`: a buffer that holds nothing.
#[verifier::external_body]
pub(crate) fn buffer_new() -> (r: ArrayVec<u8, 8192>)
    ensures
        held(r) == Seq::<u8>::empty(),
{
    ArrayVec::new()
}

/// `ArrayVec::len`: the number of bytes held, never more than the capacity.
#[verifier::external_body]
pub(crate) fn buffer_len(buffer: &ArrayVec<u8, 8192>) -> (r: usize)
    ensures
        r == held(*buffer).len(),
        r <= BLOCK,
{
    buffer.len()
}

/// `ArrayVec::as_slice`: the bytes held, as a slice.
#[verifier::external_body]
pub(crate) fn buffer_bytes(buffer: &ArrayVec<u8, 8192>) -> (r: &[u8])
    ensures
        r@ == held(*buffer),
{
    buffer.as_slice()
}

/// `ArrayVec::clear`: afterwards the buffer holds nothing.
#[verifier::external_body]
pub(crate) fn buffer_clear(buffer: &mut ArrayVec<u8, 8192>)
    ensures
        held(*final(buffer)) == Seq::<u8>::empty(),
{
    buffer.clear()
}

/// `aead::Buffer::extend_from_slice` on an `ArrayVec`: appends `other` when it fits in
/// the capacity that is left, and otherwise fails and leaves the buffer as it was.
#[verifier::external_body]
pub(crate) fn buffer_extend(buffer: &mut ArrayVec<u8, 8192>, other: &[u8]) -> (r: Result<(), aead::Error>)
    ensures
        r.is_ok() <==> held(*old(buffer)).len() + other@.len() <= BLOCK,
        r.is_ok() ==> held(*final(buffer)) == held(*old(buffer)) + other@,
        r.is_err() ==> held(*final(buffer)) == held(*old(buffer)),
{
    aead::Buffer::extend_from_slice(buffer, other)
}

} // verus!
