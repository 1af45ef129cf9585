//! Decompression of gzip data.

use flate2::read::GzDecoder;
use std::io::Read;
use vstd::prelude::*;

verus! {

/// The bytes that the gzip member at the start of `data` holds, where
/// `data` begins with a sound one.
pub uninterp spec fn gzip_inflated(data: Seq<u8>) -> Option<Seq<u8>>;

/// `flate2::read::GzDecoder`, read to its end over `data`: the decoder gives
/// the content of the first gzip member, or fails where the header, the
/// deflate stream or the check sum is broken. What it gives depends on the
/// bytes of `data` alone.
#[verifier::external_body]
pub(crate) fn inflate(data: &[u8]) -> (plain: Option<Vec<u8>>)
    ensures
        gzip_inflated(data@) == match plain {
            Some(p) => Some(p@),
            None => None,
        },
{
    let mut out = Vec::new();
    match GzDecoder::new(data).read_to_end(&mut out) {
        Ok(_) => Some(out),
        Err(_) => None,
    }
}

} // verus!
