//! Big-endian integers and fixed-size reads from byte slices.

use crate::error::Error;
use vstd::prelude::*;
use vstd::utf8::{decode_utf8, valid_utf8};

verus! {

/// The number that the four bytes `b` encode, most significant byte first.
pub open spec fn be_u32(b: Seq<u8>) -> u32
    recommends
        b.len() == 4,
{
    ((b[0] as u32) << 24u32) | ((b[1] as u32) << 16u32) | ((b[2] as u32) << 8u32) | (b[3] as u32)
}

/// The four bytes of `n`, most significant byte first.
pub open spec fn be_bytes(n: u32) -> Seq<u8> {
    seq![(n >> 24u32) as u8, (n >> 16u32) as u8, (n >> 8u32) as u8, n as u8]
}

/// Decoding the encoding of `n` gives `n`.
pub proof fn lemma_be_value_round_trip(n: u32)
    ensures
        be_u32(be_bytes(n)) == n,
{
    let b = be_bytes(n);
    let (b0, b1, b2, b3) = (b[0], b[1], b[2], b[3]);
    assert(b0 == (n >> 24u32) as u8 && b1 == (n >> 16u32) as u8 && b2 == (n >> 8u32) as u8 && b3
        == n as u8);
    assert(b0 == (n >> 24u32) as u8 && b1 == (n >> 16u32) as u8 && b2 == (n >> 8u32) as u8 && b3
        == n as u8 ==> ((b0 as u32) << 24u32) | ((b1 as u32) << 16u32) | ((b2 as u32) << 8u32) | (
    b3 as u32) == n) by (bit_vector);
}

/// Encoding the number that four bytes decode to gives those bytes back.
pub proof fn lemma_be_bytes_round_trip(b: Seq<u8>)
    requires
        b.len() == 4,
    ensures
        be_bytes(be_u32(b)) == b,
{
    let (b0, b1, b2, b3) = (b[0], b[1], b[2], b[3]);
    let n = be_u32(b);
    assert(n == ((b0 as u32) << 24u32) | ((b1 as u32) << 16u32) | ((b2 as u32) << 8u32) | (
    b3 as u32));
    assert(n == ((b0 as u32) << 24u32) | ((b1 as u32) << 16u32) | ((b2 as u32) << 8u32) | (
    b3 as u32) ==> (n >> 24u32) as u8 == b0 && (n >> 16u32) as u8 == b1 && (n >> 8u32) as u8 == b2
        && n as u8 == b3) by (bit_vector);
    assert(be_bytes(n) =~= b);
}

/// Reads a big-endian `u32` from four bytes.
pub fn u32_from_be(b: [u8; 4]) -> (r: u32)
    ensures
        r == be_u32(b@),
{
    ((b[0] as u32) << 24u32) | ((b[1] as u32) << 16u32) | ((b[2] as u32) << 8u32) | (b[3] as u32)
}

/// Writes `n` as four big-endian bytes.
pub fn u32_to_be(n: u32) -> (r: [u8; 4])
    ensures
        r@ == be_bytes(n),
{
    let r: [u8; 4] = [(n >> 24u32) as u8, (n >> 16u32) as u8, (n >> 8u32) as u8, n as u8];
    assert(r@ =~= be_bytes(n));
    r
}

/// Reads the big-endian `u32` at `bytes[at..at + 4]`.
pub(crate) fn read_u32(bytes: &[u8], at: usize) -> (r: u32)
    requires
        at + 4 <= bytes@.len(),
    ensures
        r == be_u32(bytes@.subrange(at as int, at + 4)),
{
    let b: [u8; 4] = [bytes[at], bytes[at + 1], bytes[at + 2], bytes[at + 3]];
    assert(b@ =~= bytes@.subrange(at as int, at + 4));
    u32_from_be(b)
}

/// Relies on `String::from_utf8`: it accepts exactly the valid UTF-8 byte
/// sequences and keeps the characters they encode.
#[verifier::external_body]
pub(crate) fn string_from_utf8(bytes: Vec<u8>) -> (r: Option<String>)
    ensures
        r is Some <==> valid_utf8(bytes@),
        r matches Some(s) ==> s@ == decode_utf8(bytes@),
{
    match String::from_utf8(bytes) {
        Ok(s) => Some(s),
        Err(_) => None,
    }
}

/// Appends the bytes of `src` to `out`.
pub(crate) fn append_bytes(out: &mut Vec<u8>, src: &[u8])
    ensures
        final(out)@ == old(out)@ + src@,
{
    let mut i: usize = 0;
    while i < src.len()
        invariant
            i <= src@.len(),
            out@ == old(out)@ + src@.subrange(0, i as int),
        decreases src@.len() - i,
    {
        out.push(src[i]);
        assert(src@.subrange(0, i + 1) =~= src@.subrange(0, i as int).push(src@[i as int]));
        i = i + 1;
    }
    assert(src@.subrange(0, src@.len() as int) =~= src@);
}

/// Copies the four bytes `slice[range]`, which must lie inside the slice.
pub fn four_bytes(slice: &[u8], range: std::ops::Range<usize>) -> (r: Result<[u8; 4], Error>)
    ensures
        range.end - range.start != 4 ==> (r matches Err(e) && e@
            == "Range must contain exactly 4 indices"@),
        range.end - range.start == 4 && slice@.len() < range.end ==> (r matches Err(e) && e@
            == "slice is shorter than the range"@),
        range.end - range.start == 4 && range.end <= slice@.len() ==> (r matches Ok(a) && a@
            == slice@.subrange(range.start as int, range.end as int)),
{
    if range.end < range.start || range.end - range.start != 4 {
        Err(Error::new("Range must contain exactly 4 indices"))
    } else if slice.len() < range.end {
        Err(Error::new("slice is shorter than the range"))
    } else {
        let a: [u8; 4] = [
            slice[range.start],
            slice[range.start + 1],
            slice[range.start + 2],
            slice[range.start + 3],
        ];
        assert(a@ =~= slice@.subrange(range.start as int, range.end as int));
        Ok(a)
    }
}

/// Reads the big-endian `u32` stored in `slice[range]`, which must be four
/// bytes inside the slice.
pub fn u32_from_slice_range(slice: &[u8], range: std::ops::Range<usize>) -> (r: Result<u32, Error>)
    ensures
        range.end - range.start != 4 || slice@.len() < range.end <==> r is Err,
        r matches Ok(n) ==> n == be_u32(slice@.subrange(range.start as int, range.end as int)),
{
    let bytes = four_bytes(slice, range)?;
    Ok(u32_from_be(bytes))
}

} // verus!
