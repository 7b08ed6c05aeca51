//! The text encodings in which key material can be given.

use vstd::prelude::*;

verus! {

/// The value of one hexadecimal digit, upper or lower case.
pub open spec fn hex_digit(b: u8) -> Option<u8> {
    if 0x30 <= b <= 0x39 {
        Some((b - 0x30) as u8)
    } else if 0x41 <= b <= 0x46 {
        Some((b - 0x41 + 10) as u8)
    } else if 0x61 <= b <= 0x66 {
        Some((b - 0x61 + 10) as u8)
    } else {
        None
    }
}

/// Whether every byte of `text` is a hexadecimal digit.
pub open spec fn all_hex(text: Seq<u8>) -> bool {
    forall|i: int| 0 <= i < text.len() ==> hex_digit(#[trigger] text[i]).is_some()
}

/// The bytes that `text` spells in hexadecimal, two digits to a byte with the high
/// digit first, or `None` where `text` has an odd length or holds anything but digits.
pub open spec fn unhexed(text: Seq<u8>) -> Option<Seq<u8>> {
    if text.len() % 2 != 0 || !all_hex(text) {
        None
    } else {
        Some(
            Seq::new(
                text.len() / 2,
                |i: int|
                    (hex_digit(text[2 * i]).unwrap() * 16 + hex_digit(
                        text[2 * i + 1],
                    ).unwrap()) as u8,
            ),
        )
    }
}

/// The bytes that `text` spells in standard base64 with padding, or `None` where the
/// decoder rejects `text`.
pub uninterp spec fn base64_decoded(text: Seq<u8>) -> Option<Seq<u8>>;

/// `hex::decode`: reads `text` as hexadecimal digits, two to a byte. It fails on an
/// odd length and on any byte that is no digit.
#[verifier::external_body]
pub(crate) fn hex_decode(text: &[u8]) -> (r: Option<Vec<u8>>)
    ensures
        match r {
            Some(bytes) => unhexed(text@) == Some(bytes@),
            None => unhexed(text@).is_none(),
        },
{
    hex::decode(text).ok()
}

/// `Engine::decode` of `base64::engine::general_purpose::STANDARD`: reads `text` as
/// base64 in the standard alphabet with padding.
#[verifier::external_body]
pub(crate) fn base64_decode(text: &[u8]) -> (r: Option<Vec<u8>>)
    ensures
        match r {
            Some(bytes) => base64_decoded(text@) == Some(bytes@),
            None => base64_decoded(text@).is_none(),
        },
{
    base64::engine::Engine::decode(&base64::engine::general_purpose::STANDARD, text).ok()
}

} // verus!
