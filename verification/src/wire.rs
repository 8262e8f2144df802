//! Fixed-width integer encodings shared by the credential cache and keytab
//! file formats.

use vstd::prelude::*;

verus! {

/// Byte order of the integers in a file.
#[derive(Clone, Copy, Debug, PartialEq, Eq)]
pub enum Endian {
    /// Most significant byte first.
    Big,
    /// Least significant byte first.
    Little,
}

/// Two-byte encoding of `v`.
pub open spec fn spec_u16_bytes(v: u16, endian: Endian) -> Seq<u8> {
    let hi = (v >> 8u16) as u8;
    let lo = v as u8;
    match endian {
        Endian::Big => seq![hi, lo],
        Endian::Little => seq![lo, hi],
    }
}

/// Four-byte encoding of `v`.
pub open spec fn spec_u32_bytes(v: u32, endian: Endian) -> Seq<u8> {
    let b3 = (v >> 24u32) as u8;
    let b2 = (v >> 16u32) as u8;
    let b1 = (v >> 8u32) as u8;
    let b0 = v as u8;
    match endian {
        Endian::Big => seq![b3, b2, b1, b0],
        Endian::Little => seq![b0, b1, b2, b3],
    }
}

/// Two's complement two-byte encoding of `v`.
pub open spec fn spec_i16_bytes(v: i16, endian: Endian) -> Seq<u8> {
    spec_u16_bytes(v as u16, endian)
}

/// Two's complement four-byte encoding of `v`.
pub open spec fn spec_i32_bytes(v: i32, endian: Endian) -> Seq<u8> {
    spec_u32_bytes(v as u32, endian)
}

/// Value of two bytes read in the given order.
pub open spec fn spec_decode_u16(b0: u8, b1: u8, endian: Endian) -> u16 {
    match endian {
        Endian::Big => ((b0 as u16) << 8u16) | (b1 as u16),
        Endian::Little => ((b1 as u16) << 8u16) | (b0 as u16),
    }
}

/// Value of four bytes read in the given order.
pub open spec fn spec_decode_u32(b0: u8, b1: u8, b2: u8, b3: u8, endian: Endian) -> u32 {
    match endian {
        Endian::Big => ((b0 as u32) << 24u32) | ((b1 as u32) << 16u32) | ((b2 as u32) << 8u32) | (
        b3 as u32),
        Endian::Little => ((b3 as u32) << 24u32) | ((b2 as u32) << 16u32) | ((b1 as u32) << 8u32)
            | (b0 as u32),
    }
}

/// Decoding the encoding of a `u16` gives it back.
pub(crate) proof fn lemma_u16_roundtrip(v: u16, endian: Endian)
    ensures
        spec_decode_u16(spec_u16_bytes(v, endian)[0], spec_u16_bytes(v, endian)[1], endian) == v,
{
    let hi = (v >> 8u16) as u8;
    let lo = v as u8;
    assert((((hi as u16) << 8u16) | (lo as u16)) == v) by (bit_vector)
        requires
            hi == (v >> 8u16) as u8,
            lo == v as u8,
    ;
}

/// Decoding the encoding of a `u32` gives it back.
pub(crate) proof fn lemma_u32_roundtrip(v: u32, endian: Endian)
    ensures
        spec_decode_u32(
            spec_u32_bytes(v, endian)[0],
            spec_u32_bytes(v, endian)[1],
            spec_u32_bytes(v, endian)[2],
            spec_u32_bytes(v, endian)[3],
            endian,
        ) == v,
{
    let b3 = (v >> 24u32) as u8;
    let b2 = (v >> 16u32) as u8;
    let b1 = (v >> 8u32) as u8;
    let b0 = v as u8;
    assert((((b3 as u32) << 24u32) | ((b2 as u32) << 16u32) | ((b1 as u32) << 8u32) | (b0 as u32))
        == v) by (bit_vector)
        requires
            b3 == (v >> 24u32) as u8,
            b2 == (v >> 16u32) as u8,
            b1 == (v >> 8u32) as u8,
            b0 == v as u8,
    ;
}

/// Casting a signed value to unsigned and back gives it back.
pub(crate) proof fn lemma_signed_casts(a: i16, b: i32)
    ensures
        (a as u16) as i16 == a,
        (b as u32) as i32 == b,
{
    assert((a as u16) as i16 == a) by (bit_vector);
    assert((b as u32) as i32 == b) by (bit_vector);
}

/// Decode two bytes.
pub fn decode_u16(b0: u8, b1: u8, endian: Endian) -> (r: u16)
    ensures
        r == spec_decode_u16(b0, b1, endian),
{
    match endian {
        Endian::Big => ((b0 as u16) << 8u16) | (b1 as u16),
        Endian::Little => ((b1 as u16) << 8u16) | (b0 as u16),
    }
}

/// Decode four bytes.
pub fn decode_u32(b0: u8, b1: u8, b2: u8, b3: u8, endian: Endian) -> (r: u32)
    ensures
        r == spec_decode_u32(b0, b1, b2, b3, endian),
{
    match endian {
        Endian::Big => ((b0 as u32) << 24u32) | ((b1 as u32) << 16u32) | ((b2 as u32) << 8u32) | (
        b3 as u32),
        Endian::Little => ((b3 as u32) << 24u32) | ((b2 as u32) << 16u32) | ((b1 as u32) << 8u32)
            | (b0 as u32),
    }
}

/// Append the bytes of `src` to `out`.
pub fn extend_bytes(out: &mut Vec<u8>, src: &[u8])
    ensures
        final(out)@ == old(out)@ + src@,
{
    let mut i: usize = 0;
    while i < src.len()
        invariant
            i <= src@.len(),
            out@ == old(out)@ + src@.subrange(0, i as int),
        decreases src@.len() - i,
    {
        out.push(src[i]);
        i = i + 1;
        assert(out@ =~= old(out)@ + src@.subrange(0, i as int));
    }
    assert(src@.subrange(0, src@.len() as int) =~= src@);
}

/// Append the encoding of a `u16`.
pub fn push_u16(out: &mut Vec<u8>, v: u16, endian: Endian)
    ensures
        final(out)@ == old(out)@ + spec_u16_bytes(v, endian),
{
    let hi = (v >> 8u16) as u8;
    let lo = v as u8;
    match endian {
        Endian::Big => {
            out.push(hi);
            out.push(lo);
        },
        Endian::Little => {
            out.push(lo);
            out.push(hi);
        },
    }
    assert(out@ =~= old(out)@ + spec_u16_bytes(v, endian));
}

/// Append the encoding of a `u32`.
pub fn push_u32(out: &mut Vec<u8>, v: u32, endian: Endian)
    ensures
        final(out)@ == old(out)@ + spec_u32_bytes(v, endian),
{
    let b3 = (v >> 24u32) as u8;
    let b2 = (v >> 16u32) as u8;
    let b1 = (v >> 8u32) as u8;
    let b0 = v as u8;
    match endian {
        Endian::Big => {
            out.push(b3);
            out.push(b2);
            out.push(b1);
            out.push(b0);
        },
        Endian::Little => {
            out.push(b0);
            out.push(b1);
            out.push(b2);
            out.push(b3);
        },
    }
    assert(out@ =~= old(out)@ + spec_u32_bytes(v, endian));
}

/// Append the encoding of an `i16`.
pub fn push_i16(out: &mut Vec<u8>, v: i16, endian: Endian)
    ensures
        final(out)@ == old(out)@ + spec_i16_bytes(v, endian),
{
    push_u16(out, v as u16, endian);
}

/// Append the encoding of an `i32`.
pub fn push_i32(out: &mut Vec<u8>, v: i32, endian: Endian)
    ensures
        final(out)@ == old(out)@ + spec_i32_bytes(v, endian),
{
    push_u32(out, v as u32, endian);
}

/// Native-order value of the bytes `[1, 0]`: 1 on little-endian hosts and
/// 256 on big-endian hosts.
#[verifier::external_body]
fn native_probe() -> (r: u16)
    ensures
        r == 1 || r == 256,
{
    u16::from_ne_bytes([1, 0])
}

/// Whether the host stores integers least significant byte first.
pub(crate) fn host_is_little_endian() -> bool {
    native_probe() == 1
}

} // verus!
