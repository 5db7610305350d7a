//! SHA-256 and fixed-width integer encodings used for commitments and ids.
use vstd::prelude::*;
use sha2::Digest;
use vstd::string::*;
use vstd::utf8::*;

verus! {

/// The SHA-256 digest (FIPS 180-4) of a byte string, as the `sha2` crate computes it.
pub uninterp spec fn sha256_of(data: Seq<u8>) -> Seq<u8>;

/// Calls `sha2::Sha256::digest` on `data`. Trusted: the returned 32 bytes are
/// the digest of exactly `data`; nothing else is said of their value.
#[verifier::external_body]
pub(crate) fn sha256(data: &[u8]) -> (r: [u8; 32])
    ensures
        r@ == sha256_of(data@),
{
    sha2::Sha256::digest(data).into()
}

pub open spec fn be64(x: u64) -> Seq<u8> {
    seq![
        (x >> 56u64) as u8,
        (x >> 48u64) as u8,
        (x >> 40u64) as u8,
        (x >> 32u64) as u8,
        (x >> 24u64) as u8,
        (x >> 16u64) as u8,
        (x >> 8u64) as u8,
        x as u8,
    ]
}

pub open spec fn le64(x: u64) -> Seq<u8> {
    seq![
        x as u8,
        (x >> 8u64) as u8,
        (x >> 16u64) as u8,
        (x >> 24u64) as u8,
        (x >> 32u64) as u8,
        (x >> 40u64) as u8,
        (x >> 48u64) as u8,
        (x >> 56u64) as u8,
    ]
}

pub open spec fn be32(x: u32) -> Seq<u8> {
    seq![(x >> 24u32) as u8, (x >> 16u32) as u8, (x >> 8u32) as u8, x as u8]
}

pub open spec fn be16(x: u16) -> Seq<u8> {
    seq![(x >> 8u16) as u8, x as u8]
}

/// Append the big-endian bytes of `x` (`u64::to_be_bytes`).
pub fn push_be64(buf: &mut Vec<u8>, x: u64)
    ensures
        final(buf)@ == old(buf)@ + be64(x),
{
    buf.push((x >> 56u64) as u8);
    buf.push((x >> 48u64) as u8);
    buf.push((x >> 40u64) as u8);
    buf.push((x >> 32u64) as u8);
    buf.push((x >> 24u64) as u8);
    buf.push((x >> 16u64) as u8);
    buf.push((x >> 8u64) as u8);
    buf.push(x as u8);
    assert(buf@ =~= old(buf)@ + be64(x));
}

/// Append the little-endian bytes of `x` (`u64::to_le_bytes`).
pub fn push_le64(buf: &mut Vec<u8>, x: u64)
    ensures
        final(buf)@ == old(buf)@ + le64(x),
{
    buf.push(x as u8);
    buf.push((x >> 8u64) as u8);
    buf.push((x >> 16u64) as u8);
    buf.push((x >> 24u64) as u8);
    buf.push((x >> 32u64) as u8);
    buf.push((x >> 40u64) as u8);
    buf.push((x >> 48u64) as u8);
    buf.push((x >> 56u64) as u8);
    assert(buf@ =~= old(buf)@ + le64(x));
}

pub fn push_be32(buf: &mut Vec<u8>, x: u32)
    ensures
        final(buf)@ == old(buf)@ + be32(x),
{
    buf.push((x >> 24u32) as u8);
    buf.push((x >> 16u32) as u8);
    buf.push((x >> 8u32) as u8);
    buf.push(x as u8);
    assert(buf@ =~= old(buf)@ + be32(x));
}

pub fn push_be16(buf: &mut Vec<u8>, x: u16)
    ensures
        final(buf)@ == old(buf)@ + be16(x),
{
    buf.push((x >> 8u16) as u8);
    buf.push(x as u8);
    assert(buf@ =~= old(buf)@ + be16(x));
}

/// Append a byte slice.
pub fn push_bytes(buf: &mut Vec<u8>, bytes: &[u8])
    ensures
        final(buf)@ == old(buf)@ + bytes@,
{
    let n = bytes.len();
    let mut i: usize = 0;
    while i < n
        invariant
            n == bytes@.len(),
            i <= n,
            buf@ == old(buf)@ + bytes@.subrange(0, i as int),
        decreases n - i,
    {
        buf.push(bytes[i]);
        assert(bytes@.subrange(0, i + 1) =~= bytes@.subrange(0, i as int).push(bytes@[i as int]));
        i = i + 1;
    }
    assert(bytes@.subrange(0, n as int) =~= bytes@);
}

/// Append the UTF-8 bytes of a string slice.
pub fn push_str_bytes(buf: &mut Vec<u8>, s: &str)
    ensures
        final(buf)@ == old(buf)@ + encode_utf8(s@),
{
    push_bytes(buf, s.as_bytes());
}

} // verus!
