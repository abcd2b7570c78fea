//! Inflating the payload of compressed records, through `flate2`.

use vstd::prelude::*;

verus! {

/// What `flate2`'s zlib decoder (`flate2::read::ZlibDecoder`, read to end)
/// produces from the given bytes: `None` when it reports an error.
pub uninterp spec fn spec_zlib_inflate(input: Seq<u8>) -> Option<Seq<u8>>;

/// What `flate2`'s raw deflate decoder (`flate2::read::DeflateDecoder`, read
/// to end) produces from the given bytes: `None` when it reports an error.
pub uninterp spec fn spec_deflate_inflate(input: Seq<u8>) -> Option<Seq<u8>>;

/// Decode a zlib stream with `flate2::read::ZlibDecoder` and
/// `std::io::Read::read_to_end`. The contract claims only that the outcome
/// is a function of the input bytes (named `spec_zlib_inflate`); what that
/// function computes is zlib decompression as implemented by `flate2`.
#[verifier::external_body]
pub fn zlib_inflate(input: &[u8]) -> (r: Option<Vec<u8>>)
    ensures
        match spec_zlib_inflate(input@) {
            Some(o) => r matches Some(v) && v@ == o,
            None => r is None,
        },
{
    let mut out = Vec::new();
    let mut decoder = flate2::read::ZlibDecoder::new(input);
    match std::io::Read::read_to_end(&mut decoder, &mut out) {
        Ok(_) => Some(out),
        Err(_) => None,
    }
}

/// Decode a raw deflate stream with `flate2::read::DeflateDecoder` and
/// `std::io::Read::read_to_end`. The contract claims only that the outcome
/// is a function of the input bytes (named `spec_deflate_inflate`); what
/// that function computes is deflate decompression as implemented by
/// `flate2`.
#[verifier::external_body]
pub fn deflate_inflate(input: &[u8]) -> (r: Option<Vec<u8>>)
    ensures
        match spec_deflate_inflate(input@) {
            Some(o) => r matches Some(v) && v@ == o,
            None => r is None,
        },
{
    let mut out = Vec::new();
    let mut decoder = flate2::read::DeflateDecoder::new(input);
    match std::io::Read::read_to_end(&mut decoder, &mut out) {
        Ok(_) => Some(out),
        Err(_) => None,
    }
}

} // verus!
