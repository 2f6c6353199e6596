//! The compressed envelope: a magic number, the length of the uncompressed bytes,
//! then a zlib stream of them.
use vstd::prelude::*;
use crate::codec::{inflate_of, zlib_compress, zlib_decompress, zlib_of};
use crate::name::append_bytes;

verus! {

pub const ENVELOPE_MAGIC: u32 = 0xa1b2c3d4;

pub const ENVELOPE_LEVEL: u8 = 6;

pub const ENVELOPE_HEADER_LEN: usize = 8;

/// The four big-endian bytes of `v`.
pub open spec fn be32(v: u32) -> Seq<u8> {
    seq![
        (v / 0x1000000) as u8,
        (v / 0x10000 % 0x100) as u8,
        (v / 0x100 % 0x100) as u8,
        (v % 0x100) as u8,
    ]
}

/// The value of the four big-endian bytes of `s` at `pos`.
pub open spec fn be32_at(s: Seq<u8>, pos: int) -> u32 {
    (s[pos] as int * 0x1000000 + s[pos + 1] as int * 0x10000 + s[pos + 2] as int * 0x100 + s[pos
        + 3] as int) as u32
}

/// The envelope around `body`; the length field keeps the low 32 bits.
pub open spec fn envelope(body: Seq<u8>) -> Seq<u8> {
    be32(ENVELOPE_MAGIC) + be32((body.len() % 0x1_0000_0000) as u32) + zlib_of(
        body,
        ENVELOPE_LEVEL,
    )
}

/// The bytes served for `body`: the envelope when compression is asked for,
/// the body itself otherwise.
pub open spec fn response_bytes(body: Seq<u8>, compress: bool) -> Seq<u8> {
    if compress {
        envelope(body)
    } else {
        body
    }
}

/// What an envelope holds: the zlib stream after the eight header bytes,
/// decoded; nothing when no stream follows the header.
pub open spec fn unwrap_envelope(data: Seq<u8>) -> Option<Seq<u8>> {
    if data.len() <= ENVELOPE_HEADER_LEN {
        None
    } else {
        inflate_of(data.subrange(ENVELOPE_HEADER_LEN as int, data.len() as int))
    }
}

/// Appends the big-endian bytes of `v` to `out`.
pub fn push_be32(out: &mut Vec<u8>, v: u32)
    ensures
        final(out)@ == old(out)@ + be32(v),
{
    let ghost start = out@;
    out.push((v / 0x1000000) as u8);
    out.push((v / 0x10000 % 0x100) as u8);
    out.push((v / 0x100 % 0x100) as u8);
    out.push((v % 0x100) as u8);
    assert(out@ =~= start + be32(v));
}

/// The bytes to serve for `body`, wrapped in the envelope when `compress` is
/// set. Opening that envelope gives `body` back, and its header holds the
/// magic number and the length of `body`.
pub fn build_response(body: &[u8], compress: bool) -> (r: Vec<u8>)
    ensures
        r@ == response_bytes(body@, compress),
        compress ==> unwrap_envelope(r@) == Some(body@),
        compress ==> be32_at(r@, 0) == ENVELOPE_MAGIC,
        compress && body@.len() < 0x1_0000_0000 ==> be32_at(r@, 4) == body@.len(),
{
    let mut out: Vec<u8> = Vec::new();
    if compress {
        push_be32(&mut out, ENVELOPE_MAGIC);
        let len32 = (body.len() as u64 % 0x1_0000_0000) as u32;
        push_be32(&mut out, len32);
        let z = zlib_compress(body, ENVELOPE_LEVEL);
        append_bytes(&mut out, z.as_slice());
        assert(out@ =~= envelope(body@));
        proof {
            lemma_envelope_frame(body@);
        }
    } else {
        append_bytes(&mut out, body);
        assert(out@ =~= body@);
    }
    out
}

/// Decodes what an envelope holds; `None` when it is too short or its stream
/// does not decode.
pub fn open_envelope(data: &[u8]) -> (r: Option<Vec<u8>>)
    ensures
        match r {
            Some(v) => unwrap_envelope(data@) == Some(v@),
            None => unwrap_envelope(data@) is None,
        },
{
    if data.len() <= ENVELOPE_HEADER_LEN {
        return None;
    }
    zlib_decompress(&data[ENVELOPE_HEADER_LEN..data.len()])
}

proof fn lemma_envelope_frame(body: Seq<u8>)
    requires
        zlib_of(body, ENVELOPE_LEVEL).len() > 0,
    ensures
        unwrap_envelope(envelope(body)) == inflate_of(zlib_of(body, ENVELOPE_LEVEL)),
        be32_at(envelope(body), 0) == ENVELOPE_MAGIC,
        body.len() < 0x1_0000_0000 ==> be32_at(envelope(body), 4) == body.len(),
{
    let e = envelope(body);
    assert(e.subrange(8, e.len() as int) =~= zlib_of(body, ENVELOPE_LEVEL));
    if body.len() < 0x1_0000_0000 {
        let n = body.len() as u32;
        assert(n % 0x100 + n / 0x100 % 0x100 * 0x100 + n / 0x10000 % 0x100 * 0x10000 + n
            / 0x1000000 * 0x1000000 == n) by (nonlinear_arith);
    }
}

} // verus!
