//! Locating the end of a top-level DER value, so that zero padding after it
//! can be dropped before strict decoding.

use vstd::prelude::*;

verus! {

/// End of a high-tag-number identifier: the index just past the first byte
/// at or after `i` whose top bit is clear.
pub open spec fn spec_high_tag_end(s: Seq<u8>, i: int) -> Option<int>
    decreases s.len() - i,
{
    if i < 0 || i >= s.len() {
        None
    } else if s[i] < 0x80 {
        Some(i + 1)
    } else {
        spec_high_tag_end(s, i + 1)
    }
}

/// Unsigned big-endian value of a byte sequence.
pub open spec fn spec_be_value(s: Seq<u8>) -> nat
    decreases s.len(),
{
    if s.len() == 0 {
        0
    } else {
        spec_be_value(s.drop_last()) * 256 + s.last() as nat
    }
}

/// Offset of the length octets: just past the identifier octets.
pub open spec fn spec_length_offset(s: Seq<u8>) -> Option<int> {
    if s.len() == 0 {
        None
    } else if s[0] % 32 == 31 {
        spec_high_tag_end(s, 1)
    } else {
        Some(1)
    }
}

/// Number of bytes a `usize` occupies.
pub open spec fn spec_usize_bytes() -> int {
    usize::BITS as int / 8
}

/// End of the first DER value in `s`: identifier, definite length, contents.
/// `None` when the header is malformed or the value runs past the input.
pub open spec fn spec_top_level_der_end(s: Seq<u8>) -> Option<int> {
    match spec_length_offset(s) {
        None => None,
        Some(off) => {
            if off >= s.len() {
                None
            } else {
                let first_len = s[off];
                let off = off + 1;
                if first_len < 0x80 {
                    if off + first_len <= s.len() {
                        Some(off + first_len)
                    } else {
                        None
                    }
                } else {
                    let count = first_len - 0x80;
                    if count == 0 || count > spec_usize_bytes() || off + count > s.len() {
                        None
                    } else {
                        let len = spec_be_value(s.subrange(off, off + count));
                        if off + count + len <= s.len() {
                            Some(off + count + len)
                        } else {
                            None
                        }
                    }
                }
            }
        }
    }
}

/// What trimming keeps: the first DER value when only zero bytes follow it,
/// and the whole input otherwise.
pub open spec fn spec_trim_zero_padded_der(s: Seq<u8>) -> Seq<u8> {
    match spec_top_level_der_end(s) {
        Some(end) => if forall|i: int| end <= i < s.len() ==> s[i] == 0 {
            s.subrange(0, end)
        } else {
            s
        },
        None => s,
    }
}

proof fn lemma_be_value_bound(s: Seq<u8>)
    ensures
        spec_be_value(s) < vstd::arithmetic::power2::pow2(8 * s.len()),
    decreases s.len(),
{
    vstd::arithmetic::power2::lemma_pow2_pos(8 * s.len());
    if s.len() > 0 {
        lemma_be_value_bound(s.drop_last());
        let p = vstd::arithmetic::power2::pow2(8 * (s.len() - 1) as nat);
        vstd::arithmetic::power2::lemma_pow2_adds(8 * (s.len() - 1) as nat, 8);
        vstd::arithmetic::power2::lemma2_to64();
        let v = spec_be_value(s.drop_last());
        assert(v * 256 + s.last() < p * 256) by (nonlinear_arith)
            requires v < p, s.last() < 256;
    }
}

proof fn lemma_usize_bytes_fit(count: int)
    requires
        0 < count <= spec_usize_bytes(),
    ensures
        vstd::arithmetic::power2::pow2((8 * count) as nat) <= usize::MAX + 1,
{
    vstd::arithmetic::power2::lemma2_to64();
    lemma_pow2_mono((8 * count) as nat, usize::BITS as nat);
    assert(usize::BITS == 32 || usize::BITS == 64);
}

proof fn lemma_pow2_mono(e1: nat, e2: nat)
    requires
        e1 <= e2,
    ensures
        vstd::arithmetic::power2::pow2(e1) <= vstd::arithmetic::power2::pow2(e2),
{
    if e1 < e2 {
        vstd::arithmetic::power2::lemma_pow2_strictly_increases(e1, e2);
    }
}

proof fn lemma_u8_der_bits(b: u8)
    ensures
        (b & 0x80 == 0) <==> b < 0x80,
        (b & 0x1f == 0x1f) <==> b % 32 == 31,
        b >= 0x80 ==> b & 0x7f == b - 0x80,
{
    assert((b & 0x80 == 0) <==> b < 0x80) by (bit_vector);
    assert((b & 0x1f == 0x1f) <==> b % 32 == 31) by (bit_vector);
    assert(b >= 0x80 ==> b & 0x7f == b - 0x80) by (bit_vector);
}

fn high_tag_end(bytes: &[u8], start: usize) -> (r: Option<usize>)
    ensures
        r is None <==> spec_high_tag_end(bytes@, start as int) is None,
        r matches Some(e) ==> spec_high_tag_end(bytes@, start as int) == Some(e as int),
    decreases bytes@.len() - start,
{
    if start >= bytes.len() {
        None
    } else {
        let b = bytes[start];
        proof {
            lemma_u8_der_bits(b);
        }
        if b & 0x80 == 0 {
            Some(start + 1)
        } else {
            high_tag_end(bytes, start + 1)
        }
    }
}

/// Return the end offset of the first top-level DER value, or `None` when its
/// header is malformed or the value does not fit in `bytes`.
pub fn top_level_der_end(bytes: &[u8]) -> (r: Option<usize>)
    ensures
        r is None <==> spec_top_level_der_end(bytes@) is None,
        r matches Some(e) ==> spec_top_level_der_end(bytes@) == Some(e as int),
{
    if bytes.len() == 0 {
        return None;
    }
    let b0 = bytes[0];
    proof {
        lemma_u8_der_bits(b0);
    }
    let offset = if b0 & 0x1f == 0x1f {
        match high_tag_end(bytes, 1) {
            Some(e) => e,
            None => {
                assert(spec_length_offset(bytes@) is None);
                return None;
            },
        }
    } else {
        1
    };
    assert(spec_length_offset(bytes@) == Some(offset as int));
    if offset >= bytes.len() {
        return None;
    }
    let first_len = bytes[offset];
    let offset = offset + 1;
    proof {
        lemma_u8_der_bits(first_len);
    }
    let len: usize = if first_len & 0x80 == 0 {
        first_len as usize
    } else {
        let count = (first_len & 0x7f) as usize;
        if count == 0 || count > (usize::BITS / 8) as usize {
            return None;
        }
        if count > bytes.len() - offset {
            return None;
        }
        let ghost field = bytes@.subrange(offset as int, offset + count);
        proof {
            lemma_be_value_bound(field);
            lemma_usize_bytes_fit(count as int);
        }
        let mut len: usize = 0;
        let mut i: usize = 0;
        while i < count
            invariant
                i <= count,
                offset + count <= bytes@.len(),
                bytes@.len() == bytes.len(),
                field == bytes@.subrange(offset as int, offset + count),
                len == spec_be_value(field.subrange(0, i as int)),
                vstd::arithmetic::power2::pow2((8 * count) as nat) <= usize::MAX + 1,
            decreases count - i,
        {
            let ghost prefix = field.subrange(0, i + 1);
            assert(prefix.drop_last() =~= field.subrange(0, i as int));
            proof {
                lemma_be_value_bound(prefix);
                lemma_pow2_mono(
                    (8 * (i + 1)) as nat,
                    (8 * count) as nat,
                );
            }
            let byte = bytes[offset + i];
            assert(len * 256 + byte < usize::MAX + 1);
            len = len * 256 + byte as usize;
            i = i + 1;
        }
        assert(field.subrange(0, count as int) =~= field);
        if len > bytes.len() - offset - count {
            return None;
        }
        return Some(offset + count + len);
    };
    if len > bytes.len() - offset {
        return None;
    }
    Some(offset + len)
}

/// Drop zero padding that follows the first top-level DER value.
///
/// The input is returned unchanged when its DER header is malformed, when the
/// value runs past the input, or when any byte after the value is non-zero.
pub fn trim_zero_padded_der(bytes: &[u8]) -> (r: &[u8])
    ensures
        r@ == spec_trim_zero_padded_der(bytes@),
{
    let end = match top_level_der_end(bytes) {
        Some(end) => end,
        None => return bytes,
    };
    let mut i = end;
    while i < bytes.len()
        invariant
            end <= i <= bytes@.len(),
            spec_top_level_der_end(bytes@) == Some(end as int),
            forall|j: int| end <= j < i ==> bytes@[j] == 0,
        decreases bytes@.len() - i,
    {
        if bytes[i] != 0 {
            assert(!(forall|j: int| end <= j < bytes@.len() ==> bytes@[j] == 0));
            return bytes;
        }
        i = i + 1;
    }
    let r = &bytes[0..end];
    assert(forall|j: int| end <= j < bytes@.len() ==> bytes@[j] == 0);
    r
}

} // verus!
