use vstd::prelude::*;
use vstd::utf8::valid_utf8;

verus! {

/// The CRC-32 (IEEE) checksum of a byte sequence.
pub uninterp spec fn crc32_of(b: Seq<u8>) -> u32;

/// The zlib stream that the deflate encoder produces for `b` at `level`.
pub uninterp spec fn zlib_of(b: Seq<u8>, level: u8) -> Seq<u8>;

/// What the zlib decoder makes of `b`: the decoded bytes, or `None` when `b`
/// is not a complete zlib stream.
pub uninterp spec fn inflate_of(b: Seq<u8>) -> Option<Seq<u8>>;

/// Relies on crc32fast::hash: the CRC-32 of the whole buffer.
#[verifier::external_body]
pub(crate) fn crc32(b: &[u8]) -> (r: u32)
    ensures
        r == crc32_of(b@),
{
    crc32fast::hash(b)
}

/// Relies on miniz_oxide::deflate::compress_to_vec_zlib: a zlib stream of the
/// input at the given level, which starts with the two-byte zlib header and
/// which the crate's decoder turns back into the input (the round trip that
/// the crate documents).
#[verifier::external_body]
pub(crate) fn zlib_compress(b: &[u8], level: u8) -> (r: Vec<u8>)
    ensures
        r@ == zlib_of(b@, level),
        r@.len() > 0,
        inflate_of(r@) == Some(b@),
{
    miniz_oxide::deflate::compress_to_vec_zlib(b, level)
}

/// Relies on miniz_oxide::inflate::decompress_to_vec_zlib: the decoded bytes
/// on success; its error value is dropped.
#[verifier::external_body]
pub(crate) fn zlib_decompress(b: &[u8]) -> (r: Option<Vec<u8>>)
    ensures
        match r {
            Some(v) => inflate_of(b@) == Some(v@),
            None => inflate_of(b@) is None,
        },
{
    match miniz_oxide::inflate::decompress_to_vec_zlib(b) {
        Ok(v) => Some(v),
        Err(_) => None,
    }
}

/// Relies on std::str::from_utf8: it succeeds exactly on well-formed UTF-8.
#[verifier::external_body]
pub(crate) fn utf8_check(b: &[u8]) -> (r: bool)
    ensures
        r == valid_utf8(b@),
{
    std::str::from_utf8(b).is_ok()
}

} // verus!
