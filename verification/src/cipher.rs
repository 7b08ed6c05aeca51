//! The outside primitives: block sealing and opening, hashing, and fresh salts.

use crate::buffer::{held, BLOCK, TAG_LEN};
use aead::arrayvec::ArrayVec;
use aead::stream::{NewStream, StreamBE32, StreamPrimitive};
use aead::KeyInit;
use aes_gcm_siv::Aes256GcmSiv;
use sha2::Digest;
use vstd::prelude::*;

verus! {

/// Bytes of a master key and of a session key.
pub const KEY_LEN: usize = 32;

/// Bytes of the salt that opens every ciphertext stream.
pub const SALT_LEN: usize = 24;

/// What AES-256-GCM-SIV in the big-endian STREAM construction makes of `plaintext`
/// at `position` under `key` and the stream nonce `nonce`, with no associated data:
/// the ciphertext followed by its tag.
pub uninterp spec fn sealed(
    key: Seq<u8>,
    nonce: Seq<u8>,
    position: u32,
    last: bool,
    plaintext: Seq<u8>,
) -> Seq<u8>;

/// The plaintext that the same construction recovers from `ciphertext`, or `None`
/// where the tag does not authenticate it.
pub uninterp spec fn opened(
    key: Seq<u8>,
    nonce: Seq<u8>,
    position: u32,
    last: bool,
    ciphertext: Seq<u8>,
) -> Option<Seq<u8>>;

/// The SHA-256 digest of `data`.
pub uninterp spec fn digest(data: Seq<u8>) -> Seq<u8>;

/// `StreamPrimitive::encrypt_in_place` of `StreamBE32<Aes256GcmSiv>`, keyed afresh:
/// encrypts the buffer's bytes where they lie and appends the 16-byte tag. The call
/// succeeds exactly when the tag still fits in the buffer. On success the buffer holds
/// the sealed block, which is 16 bytes longer than the plaintext, and opening that
/// block with the same key, nonce, position and flag gives the plaintext back.
#[verifier::external_body]
pub(crate) fn seal_in_place(
    key: &[u8; 32],
    nonce: &[u8; 7],
    position: u32,
    last: bool,
    buffer: &mut ArrayVec<u8, 8192>,
) -> (r: Result<(), aead::Error>)
    ensures
        r.is_ok() <==> held(*old(buffer)).len() + TAG_LEN <= BLOCK,
        r.is_ok() ==> held(*final(buffer)) == sealed(
            key@,
            nonce@,
            position,
            last,
            held(*old(buffer)),
        ),
        r.is_ok() ==> held(*final(buffer)).len() == held(*old(buffer)).len() + TAG_LEN,
        r.is_ok() ==> opened(key@, nonce@, position, last, held(*final(buffer))) == Some(
            held(*old(buffer)),
        ),
{
    let cipher = Aes256GcmSiv::new(key.into());
    StreamBE32::from_aead(cipher, nonce.into()).encrypt_in_place(position, last, b"", buffer)
}

/// `StreamPrimitive::decrypt_in_place` of `StreamBE32<Aes256GcmSiv>`, keyed afresh:
/// checks the tag at the buffer's end and, where it authenticates the rest, replaces
/// the buffer's bytes by the plaintext. A buffer shorter than a tag never opens, and
/// the plaintext is 16 bytes shorter than the block it came from.
#[verifier::external_body]
pub(crate) fn open_in_place(
    key: &[u8; 32],
    nonce: &[u8; 7],
    position: u32,
    last: bool,
    buffer: &mut ArrayVec<u8, 8192>,
) -> (r: Result<(), aead::Error>)
    ensures
        r.is_ok() <==> opened(key@, nonce@, position, last, held(*old(buffer))).is_some(),
        r.is_ok() ==> Some(held(*final(buffer))) == opened(
            key@,
            nonce@,
            position,
            last,
            held(*old(buffer)),
        ),
        r.is_ok() ==> held(*final(buffer)).len() + TAG_LEN == held(*old(buffer)).len(),
{
    let cipher = Aes256GcmSiv::new(key.into());
    StreamBE32::from_aead(cipher, nonce.into()).decrypt_in_place(position, last, b"", buffer)
}

/// `Sha256::digest`: the 32-byte SHA-256 digest of `data`.
#[verifier::external_body]
pub(crate) fn sha256(data: &[u8]) -> (r: [u8; 32])
    ensures
        r@ == digest(data@),
{
    sha2::Sha256::digest(data).into()
}

/// `RngCore::try_fill_bytes` of `OsRng`: 24 bytes from the operating system's random
/// source, or `None` where the source fails. Nothing is known of the bytes.
#[verifier::external_body]
pub(crate) fn make_nonce() -> (r: Option<[u8; 24]>) {
    let mut salt = [0u8; 24];
    match aead::rand_core::RngCore::try_fill_bytes(&mut aead::OsRng, &mut salt) {
        Ok(()) => Some(salt),
        Err(_) => None,
    }
}

} // verus!
