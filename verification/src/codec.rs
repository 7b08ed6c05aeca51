//! The compression codec that is layered over the framing.

use vstd::prelude::*;

verus! {

/// What the Zstandard decoder reads `data` back as, or `None` where `data` is no
/// complete run of Zstandard frames.
pub uninterp spec fn decompressed(data: Seq<u8>) -> Option<Seq<u8>>;

/// What the Zstandard encoder makes of `data` at `level`, or `None` where the encoder
/// fails.
pub uninterp spec fn compressed(data: Seq<u8>, level: i32) -> Option<Seq<u8>>;

/// `zstd::stream::encode_all`: compresses `data` at `level`. What comes out is what
/// the encoder makes of these arguments, and decoding it gives `data` back.
#[verifier::external_body]
pub(crate) fn deflate(data: &[u8], level: i32) -> (r: Option<Vec<u8>>)
    ensures
        match r {
            Some(bytes) => {
                &&& compressed(data@, level) == Some(bytes@)
                &&& decompressed(bytes@) == Some(data@)
            },
            None => compressed(data@, level).is_none(),
        },
{
    zstd::stream::encode_all(data, level).ok()
}

/// `zstd::stream::decode_all`: decodes all of `data`, or fails where the decoder
/// rejects it.
#[verifier::external_body]
pub(crate) fn inflate(data: &[u8]) -> (r: Option<Vec<u8>>)
    ensures
        r.is_some() <==> decompressed(data@).is_some(),
        r.is_some() ==> Some(r.unwrap()@) == decompressed(data@),
{
    zstd::stream::decode_all(data).ok()
}

} // verus!
