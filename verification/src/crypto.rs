//! Kerberos cryptographic profiles: RFC3962 `aes128-cts-hmac-sha1-96` /
//! `aes256-cts-hmac-sha1-96`, RFC8009 `aes128-cts-hmac-sha256-128` /
//! `aes256-cts-hmac-sha384-192`, RFC3961 `des3-cbc-sha1-kd` and RFC4757
//! `arcfour-hmac-md5`: key derivation, checksums and encrypted messages.
//!
//! Block ciphers, hashes, HMACs, PBKDF2 and RC4 come from the RustCrypto
//! crates; their results are named in `primitives`, and every contract here
//! is stated over those names.

use vstd::prelude::*;
use vstd::string::StringSliceAdditionalSpecFns;

use crate::cipher_modes::{
    aes_cts_decrypt, aes_cts_encrypt, copy_bytes, des3_cbc_decrypt, des3_cbc_encrypt,
    lemma_aes_cts_roundtrip, lemma_cbc_encrypt_len, lemma_cbc_roundtrip, spec_aes_cts_decrypt,
    spec_aes_cts_encrypt, spec_block_cipher_inverts, spec_cbc_encrypt, spec_des3_cbc_decrypt,
    spec_des3_cbc_encrypt, spec_len_fits, BlockCipher,
};
use crate::primitives::{
    hmac_md5, hmac_md5_tag, hmac_sha1, hmac_sha1_tag, hmac_sha256, hmac_sha256_tag, hmac_sha384,
    hmac_sha384_tag, md4, md4_digest, md5, md5_digest, pbkdf2_hmac_sha1, pbkdf2_hmac_sha256,
    pbkdf2_hmac_sha384, pbkdf2_sha1, pbkdf2_sha256, pbkdf2_sha384, rc4, rc4_apply,
};
use crate::text::{str_chars, str_from_utf8, string_push};
use crate::wire::{decode_u32, extend_bytes, push_u32, spec_decode_u32, spec_u32_bytes, Endian};
use crate::bits::{
    bits_of, gcd, lemma_gcd_positive, ones_complement_add_bits, pack_bits, rotate_bits, spec_be_bytes, spec_bits, spec_bits_value, spec_fold_chunks, spec_gcd,
    spec_lcm, spec_replicate, spec_rotate_bits,
};

verus! {

/// Errors produced by Kerberos cryptographic operations.
#[derive(Clone, Debug, Eq, PartialEq)]
pub enum Error {
    /// Key material length did not match the selected encryption type.
    InvalidKeyLength {
        /// Expected key length.
        expected: usize,
        /// Actual key length.
        actual: usize,
    },
    /// Confounder length did not match the selected encryption type.
    InvalidConfounderLength {
        /// Expected confounder length.
        expected: usize,
        /// Actual confounder length.
        actual: usize,
    },
    /// Ciphertext was too short for the requested operation.
    CiphertextTooShort {
        /// Minimum accepted byte length.
        minimum: usize,
        /// Actual byte length.
        actual: usize,
    },
    /// Decrypted plaintext was too short to remove a confounder.
    PlaintextTooShort {
        /// Minimum accepted byte length.
        minimum: usize,
        /// Actual byte length.
        actual: usize,
    },
    /// Message integrity verification failed.
    IntegrityCheckFailed,
    /// String-to-key parameters were not four bytes of hex.
    InvalidS2kParamsLength(usize),
    /// String-to-key parameter hex was invalid.
    InvalidS2kParamsHex(char),
    /// RFC3962's zero iteration value means 2^32 iterations and is not run.
    UnsupportedIterationCountZero,
    /// RC4-HMAC string-to-key requires a UTF-8 password byte string.
    InvalidStringToKeySecret,
    /// DES3 string-to-key parameters are required to be empty.
    NonEmptyDes3S2kParams,
    /// DES3 random-to-key seed material length did not match RFC3961.
    InvalidSeedLength {
        /// Expected seed length.
        expected: usize,
        /// Actual seed length.
        actual: usize,
    },
    /// The n-fold input was empty.
    EmptyNfoldInput,
    /// The key usage constant was empty.
    EmptyUsage,
    /// The n-fold output size was not a positive whole number of bytes.
    InvalidNfoldOutputBits(usize),
    /// Data encryption needs at least one plaintext byte.
    EmptyPlaintext,
    /// CBC ciphertext was not an exact multiple of the selected block size.
    InvalidCiphertextBlockSize {
        /// Required block size.
        block_size: usize,
        /// Actual ciphertext length.
        actual: usize,
    },
}

// ---------------------------------------------------------------------------
// n-fold

/// RFC3961 n-fold of `input` to `output_bits` bits: the input's bits are
/// repeated, copy `i` rotated right by `13 * i` bits, until the length is the
/// least common multiple of both sizes; the result is the one's-complement
/// sum of that string's `output_bits`-bit chunks, as big-endian bytes.
pub open spec fn spec_nfold(input: Seq<u8>, output_bits: nat) -> Result<Seq<u8>, Error> {
    if input.len() == 0 {
        Err(Error::EmptyNfoldInput)
    } else if output_bits == 0 || output_bits % 8 != 0 {
        Err(Error::InvalidNfoldOutputBits(output_bits as usize))
    } else {
        let n = input.len() * 8;
        let copies = spec_lcm(output_bits, n) / n;
        let sum = spec_replicate(spec_bits(input), copies);
        Ok(
            spec_be_bytes(
                spec_fold_chunks(sum, output_bits, sum.len() / output_bits),
                output_bits / 8,
            ),
        )
    }
}

/// Whether an n-fold of `input` to `output_bits` bits fits the machine: the
/// product of both sizes in bits must fit in a `usize`.
pub open spec fn spec_nfold_fits(input: Seq<u8>, output_bits: nat) -> bool {
    input.len() > 0 && output_bits > 0 && output_bits % 8 == 0 ==> input.len() * 8 * output_bits
        <= usize::MAX
}

proof fn lemma_rotate_same_steps(bits: Seq<bool>, a: nat, b: nat)
    requires
        bits.len() > 0,
        a < bits.len(),
        a == b % bits.len(),
    ensures
        spec_rotate_bits(bits, a) == spec_rotate_bits(bits, b),
{
    vstd::arithmetic::div_mod::lemma_small_mod(a, bits.len());
    assert(spec_rotate_bits(bits, a) =~= spec_rotate_bits(bits, b));
}

proof fn lemma_next_length(i: nat, copies: nat, n: nat)
    requires
        i < copies,
    ensures
        (i + 1) * n <= copies * n,
        (i + 1) * n == i * n + n,
{
    assert((i + 1) * n <= copies * n) by (nonlinear_arith)
        requires
            i < copies,
    ;
    assert((i + 1) * n == i * n + n) by (nonlinear_arith);
}

proof fn lemma_next_steps(i: int, steps: int, n: int)
    requires
        i >= 0,
        n > 0,
        0 <= steps < n,
        steps == (13 * i) % n,
    ensures
        (steps + 13) % n == (13 * (i + 1)) % n,
        steps + 13 < n ==> steps + 13 == (13 * (i + 1)) % n,
{
    vstd::arithmetic::div_mod::lemma_add_mod_noop(13 * i, 13, n);
    vstd::arithmetic::div_mod::lemma_mod_twice(13, n);
    vstd::arithmetic::div_mod::lemma_add_mod_noop(steps, 13, n);
    vstd::arithmetic::div_mod::lemma_mod_twice(13 * i, n);
    if steps + 13 < n {
        vstd::arithmetic::div_mod::lemma_small_mod((steps + 13) as nat, n as nat);
    }
    assert(13 * (i + 1) == 13 * i + 13);
}

/// RFC3961 n-fold operation.
pub fn nfold(input: &[u8], output_bits: usize) -> (r: Result<Vec<u8>, Error>)
    requires
        spec_nfold_fits(input@, output_bits as nat),
    ensures
        match r {
            Ok(v) => spec_nfold(input@, output_bits as nat) == Ok::<Seq<u8>, Error>(v@),
            Err(e) => spec_nfold(input@, output_bits as nat) == Err::<Seq<u8>, Error>(e),
        },
        r matches Ok(v) ==> v@.len() == output_bits / 8,
{
    if input.len() == 0 {
        return Err(Error::EmptyNfoldInput);
    }
    if output_bits == 0 || output_bits % 8 != 0 {
        return Err(Error::InvalidNfoldOutputBits(output_bits));
    }
    proof {
        assert(input@.len() * 8 <= input@.len() * 8 * output_bits) by (nonlinear_arith)
            requires
                output_bits >= 1,
        ;
    }
    let input_bits = input.len() * 8;
    proof {
        lemma_gcd_positive(output_bits as nat, input_bits as nat);
        assert(output_bits * input_bits == input@.len() * 8 * output_bits) by (nonlinear_arith)
            requires
                input_bits == input@.len() * 8,
        ;
    }
    let g = gcd(output_bits, input_bits);
    let lcm_bits = (output_bits * input_bits) / g;
    let replicate = lcm_bits / input_bits;
    let bits = bits_of(input);
    let ghost copies = replicate as nat;
    proof {
        assert(lcm_bits == spec_lcm(output_bits as nat, input_bits as nat));
        assert(lcm_bits <= output_bits * input_bits) by (nonlinear_arith)
            requires
                g >= 1,
                lcm_bits == (output_bits * input_bits) / (g as int),
        ;
        assert(replicate * input_bits <= lcm_bits) by (nonlinear_arith)
            requires
                input_bits > 0,
                replicate == lcm_bits / input_bits,
        ;
    }
    proof {
        assert(input_bits * 8 <= output_bits * input_bits) by (nonlinear_arith)
            requires
                output_bits >= 8,
        ;
    }
    let mut sum: Vec<bool> = Vec::new();
    let mut i: usize = 0;
    let mut steps: usize = 0;
    while i < replicate
        invariant
            bits@ == spec_bits(input@),
            bits@.len() == input_bits,
            input_bits >= 8,
            input_bits + 13 <= usize::MAX,
            i <= replicate,
            replicate * input_bits <= lcm_bits,
            lcm_bits <= usize::MAX,
            steps < input_bits,
            steps as int == (13 * i) % (input_bits as int),
            sum@ == spec_replicate(bits@, i as nat),
            sum@.len() == i * input_bits,
        decreases replicate - i,
    {
        let mut rotated = rotate_bits(&bits, steps);
        proof {
            lemma_rotate_same_steps(bits@, steps as nat, (13 * i) as nat);
            lemma_next_length(i as nat, replicate as nat, input_bits as nat);
        }
        sum.append(&mut rotated);
        proof {
            lemma_next_steps(i as int, steps as int, input_bits as int);
        }
        steps = if steps + 13 < input_bits {
            steps + 13
        } else {
            (steps + 13) % input_bits
        };
        i = i + 1;
    }
    let output_len = output_bits / 8;
    let mut folded: Vec<bool> = Vec::new();
    let mut z: usize = 0;
    while z < output_bits
        invariant
            z <= output_bits,
            folded@.len() == z,
            forall|j: int| 0 <= j < z ==> !folded@[j],
        decreases output_bits - z,
    {
        folded.push(false);
        z = z + 1;
    }
    proof {
        crate::bits::lemma_bits_value_zero(folded@);
    }
    let chunks = sum.len() / output_bits;
    let mut c: usize = 0;
    while c < chunks
        invariant
            chunks == sum@.len() / (output_bits as nat),
            sum@.len() <= usize::MAX,
            output_bits > 0,
            c <= chunks,
            folded@.len() == output_bits,
            spec_bits_value(folded@) == spec_fold_chunks(sum@, output_bits as nat, c as nat),
        decreases chunks - c,
    {
        proof {
            assert((c + 1) * output_bits <= chunks * output_bits) by (nonlinear_arith)
                requires
                    c < chunks,
            ;
            assert(chunks * output_bits <= sum@.len()) by (nonlinear_arith)
                requires
                    chunks == sum@.len() / (output_bits as nat),
                    output_bits > 0,
            ;
            assert((c + 1) * output_bits == c * output_bits + output_bits) by (nonlinear_arith);
        }
        let start = c * output_bits;
        let chunk = &sum.as_slice()[start..start + output_bits];
        folded = ones_complement_add_bits(&folded, chunk);
        c = c + 1;
    }
    let out = pack_bits(&folded);
    proof {
        crate::bits::lemma_be_bytes_len(spec_bits_value(folded@), output_bits as nat / 8);
        assert(copies * input_bits == sum@.len());
    }
    Ok(out)
}

// ---------------------------------------------------------------------------
// Byte helpers

/// `a` and `b` XORed byte by byte (the shorter length).
pub open spec fn spec_xor(a: Seq<u8>, b: Seq<u8>) -> Seq<u8> {
    Seq::new(if a.len() < b.len() { a.len() } else { b.len() }, |i: int| a[i] ^ b[i])
}

pub(crate) fn xor_bytes(a: &[u8], b: &[u8]) -> (r: Vec<u8>)
    requires
        a@.len() == b@.len(),
    ensures
        r@ == spec_xor(a@, b@),
{
    let mut out: Vec<u8> = Vec::new();
    let mut i: usize = 0;
    while i < a.len()
        invariant
            a@.len() == b@.len(),
            i <= a@.len(),
            out@ == spec_xor(a@, b@).subrange(0, i as int),
        decreases a@.len() - i,
    {
        out.push(a[i] ^ b[i]);
        i = i + 1;
        assert(out@ =~= spec_xor(a@, b@).subrange(0, i as int));
    }
    assert(spec_xor(a@, b@).subrange(0, a@.len() as int) =~= spec_xor(a@, b@));
    out
}

/// `n` zero bytes.
pub open spec fn spec_zeros(n: nat) -> Seq<u8> {
    Seq::new(n, |i: int| 0u8)
}

pub(crate) fn zeros(n: usize) -> (r: Vec<u8>)
    ensures
        r@ == spec_zeros(n as nat),
{
    let mut out: Vec<u8> = Vec::new();
    let mut i: usize = 0;
    while i < n
        invariant
            i <= n,
            out@ == spec_zeros(i as nat),
        decreases n - i,
    {
        out.push(0u8);
        i = i + 1;
        assert(out@ =~= spec_zeros(i as nat));
    }
    out
}

/// `bytes` followed by zeros up to a multiple of `block_size`.
pub open spec fn spec_zero_pad(bytes: Seq<u8>, block_size: nat) -> Seq<u8> {
    if bytes.len() % block_size == 0 {
        bytes
    } else {
        bytes + spec_zeros((block_size - bytes.len() % block_size) as nat)
    }
}

pub(crate) fn zero_pad(bytes: &mut Vec<u8>, block_size: usize)
    requires
        block_size > 0,
        old(bytes)@.len() + block_size <= usize::MAX,
    ensures
        final(bytes)@ == spec_zero_pad(old(bytes)@, block_size as nat),
        final(bytes)@.len() % (block_size as nat) == 0,
{
    let remainder = bytes.len() % block_size;
    if remainder != 0 {
        let pad = zeros(block_size - remainder);
        extend_bytes(bytes, pad.as_slice());
        proof {
            let n = old(bytes)@.len() as int;
            let b = block_size as int;
            vstd::arithmetic::div_mod::lemma_fundamental_div_mod(n, b);
            let q = n / b;
            assert((q + 1) * b == b * q + b) by (nonlinear_arith);
            vstd::arithmetic::div_mod::lemma_fundamental_div_mod_converse(
                n + b - remainder,
                b,
                q + 1,
                0,
            );
        }
    }
}

/// The last two `16`-byte blocks of `bytes` exchanged.
pub open spec fn spec_swap_last_two_blocks(bytes: Seq<u8>) -> Seq<u8> {
    let n = bytes.len() as int;
    bytes.subrange(0, n - 32) + bytes.subrange(n - 16, n) + bytes.subrange(n - 32, n - 16)
}

pub(crate) fn swap_last_two_blocks(bytes: &mut Vec<u8>)
    requires
        old(bytes)@.len() >= 32,
    ensures
        final(bytes)@ == spec_swap_last_two_blocks(old(bytes)@),
{
    let len = bytes.len();
    let mut i: usize = 0;
    while i < 16
        invariant
            len == old(bytes)@.len(),
            len >= 32,
            bytes@.len() == len,
            i <= 16,
            forall|j: int|
                0 <= j < len ==> #[trigger] bytes@[j] == if len - 32 <= j < len - 32 + i {
                    old(bytes)@[j + 16]
                } else if len - 16 <= j < len - 16 + i {
                    old(bytes)@[j - 16]
                } else {
                    old(bytes)@[j]
                },
        decreases 16 - i,
    {
        let a = bytes[len - 32 + i];
        let b = bytes[len - 16 + i];
        bytes.set(len - 32 + i, b);
        bytes.set(len - 16 + i, a);
        i = i + 1;
    }
    assert(bytes@ =~= spec_swap_last_two_blocks(old(bytes)@));
}

/// A key usage number as four big-endian bytes and a suffix byte.
pub open spec fn spec_usage_constant(usage: u32, suffix: u8) -> Seq<u8> {
    spec_u32_bytes(usage, Endian::Big).push(suffix)
}

pub(crate) fn usage_constant(usage: u32, suffix: u8) -> (r: Vec<u8>)
    ensures
        r@ == spec_usage_constant(usage, suffix),
{
    let mut out: Vec<u8> = Vec::new();
    push_u32(&mut out, usage, Endian::Big);
    out.push(suffix);
    assert(out@ =~= spec_usage_constant(usage, suffix));
    out
}

/// RFC4757 message type of a key usage: usages 3 and 9 become 8 and usage
/// 23 becomes 13.
pub open spec fn spec_ms_usage(usage: u32) -> u32 {
    if usage == 3 || usage == 9 {
        8
    } else if usage == 23 {
        13
    } else {
        usage
    }
}

/// The first `k` bytes of the seven-bits-per-byte form of `u`: each byte
/// holds seven low bits with the high bit set while more follow; bytes after
/// the last are zero.
pub open spec fn spec_ms_msg_type_bytes(u: u32, k: nat) -> Seq<u8>
    decreases k,
{
    if k == 0 {
        Seq::empty()
    } else if u < 0x80 {
        seq![u as u8] + spec_zeros((k - 1) as nat)
    } else {
        seq![((u as u8) & 0x7fu8) | 0x80u8] + spec_ms_msg_type_bytes(u >> 7u32, (k - 1) as nat)
    }
}

proof fn lemma_ms_msg_type_len(u: u32, k: nat)
    ensures
        spec_ms_msg_type_bytes(u, k).len() == k,
    decreases k,
{
    if k > 0 && u >= 0x80 {
        lemma_ms_msg_type_len(u >> 7u32, (k - 1) as nat);
    }
}

pub(crate) fn rc4_hmac_usage_to_ms_msg_type(usage: u32) -> (r: Vec<u8>)
    ensures
        r@ == spec_ms_msg_type_bytes(spec_ms_usage(usage), 4),
        r@.len() == 4,
{
    proof {
        lemma_ms_msg_type_len(spec_ms_usage(usage), 4);
    }
    let mut u: u32 = if usage == 3 || usage == 9 {
        8
    } else if usage == 23 {
        13
    } else {
        usage
    };
    let ghost full = spec_ms_msg_type_bytes(u, 4);
    let mut out: Vec<u8> = Vec::new();
    let mut k: usize = 0;
    let mut done = false;
    while k < 4
        invariant
            k <= 4,
            full == spec_ms_msg_type_bytes(spec_ms_usage(usage), 4),
            out@.len() == k,
            done ==> out@ + spec_zeros((4 - k) as nat) == full,
            !done ==> out@ + spec_ms_msg_type_bytes(u, (4 - k) as nat) == full,
        decreases 4 - k,
    {
        if done {
            let ghost before = out@;
            out.push(0u8);
            assert(out@ + spec_zeros((4 - k - 1) as nat) =~= before + spec_zeros((4 - k) as nat));
        } else if u < 0x80 {
            let ghost before = out@;
            out.push(u as u8);
            done = true;
            assert(out@ + spec_zeros((4 - k - 1) as nat) =~= before + (seq![u as u8] + spec_zeros(
                (4 - k - 1) as nat,
            )));
        } else {
            let ghost before = out@;
            out.push(((u as u8) & 0x7f) | 0x80);
            assert(out@ + spec_ms_msg_type_bytes(u >> 7u32, (4 - k - 1) as nat) =~= before + (seq![
                ((u as u8) & 0x7fu8) | 0x80u8,
            ] + spec_ms_msg_type_bytes(u >> 7u32, (4 - k - 1) as nat)));
            u = u >> 7;
        }
        k = k + 1;
    }
    assert(out@ + spec_zeros(0) =~= out@);
    assert(out@ + spec_ms_msg_type_bytes(u, 0) =~= out@);
    out
}

/// Comparison of two byte strings whose running time does not depend on
/// where they differ.
pub(crate) fn constant_time_eq(a: &[u8], b: &[u8]) -> (r: bool)
    ensures
        r == (a@ == b@),
{
    if a.len() != b.len() {
        return false;
    }
    let mut diff: u8 = 0;
    let mut i: usize = 0;
    assert(a@.subrange(0, 0) =~= b@.subrange(0, 0));
    while i < a.len()
        invariant
            a@.len() == b@.len(),
            i <= a@.len(),
            (diff == 0) == (a@.subrange(0, i as int) == b@.subrange(0, i as int)),
        decreases a@.len() - i,
    {
        let x = a[i];
        let y = b[i];
        let ghost d0 = diff;
        diff = diff | (x ^ y);
        proof {
            assert(((d0 | (x ^ y)) == 0u8) == (d0 == 0u8 && x == y)) by (bit_vector);
            assert(a@.subrange(0, i + 1) == a@.subrange(0, i as int).push(x));
            assert(b@.subrange(0, i + 1) == b@.subrange(0, i as int).push(y));
            if a@.subrange(0, i as int) == b@.subrange(0, i as int) && x == y {
                assert(a@.subrange(0, i + 1) =~= b@.subrange(0, i + 1));
            }
            if a@.subrange(0, i + 1) == b@.subrange(0, i + 1) {
                assert(a@.subrange(0, i + 1)[i as int] == b@.subrange(0, i + 1)[i as int]);
                assert(a@.subrange(0, i as int) =~= a@.subrange(0, i + 1).drop_last());
                assert(b@.subrange(0, i as int) =~= b@.subrange(0, i + 1).drop_last());
            }
        }
        i = i + 1;
    }
    assert(a@.subrange(0, a@.len() as int) =~= a@);
    assert(b@.subrange(0, b@.len() as int) =~= b@);
    diff == 0
}

// ---------------------------------------------------------------------------
// String-to-key parameters

/// The value of a hexadecimal digit byte, either case.
pub open spec fn spec_hex_value(b: u8) -> Option<u8> {
    if 48 <= b <= 57 {
        Some((b - 48) as u8)
    } else if 97 <= b <= 102 {
        Some((b - 97 + 10) as u8)
    } else if 65 <= b <= 70 {
        Some((b - 65 + 10) as u8)
    } else {
        None
    }
}

/// The byte spelled by two hexadecimal digits; the first bad digit is the
/// error.
pub open spec fn spec_hex_pair(high: u8, low: u8) -> Result<u8, Error> {
    match spec_hex_value(high) {
        None => Err(Error::InvalidS2kParamsHex(high as char)),
        Some(h) => match spec_hex_value(low) {
            None => Err(Error::InvalidS2kParamsHex(low as char)),
            Some(l) => Ok(((h << 4u8) | l) as u8),
        },
    }
}

/// RFC3962 string-to-key parameters (eight hexadecimal digits, a big-endian
/// iteration count) read from their bytes; a zero count is refused.
pub open spec fn spec_s2kparams_to_iterations(s: Seq<u8>) -> Result<u32, Error> {
    if s.len() != 8 {
        Err(Error::InvalidS2kParamsLength(s.len() as usize))
    } else {
        match spec_hex_pair(s[0], s[1]) {
            Err(e) => Err(e),
            Ok(b0) => match spec_hex_pair(s[2], s[3]) {
                Err(e) => Err(e),
                Ok(b1) => match spec_hex_pair(s[4], s[5]) {
                    Err(e) => Err(e),
                    Ok(b2) => match spec_hex_pair(s[6], s[7]) {
                        Err(e) => Err(e),
                        Ok(b3) => {
                            let n = spec_decode_u32(b0, b1, b2, b3, Endian::Big);
                            if n == 0 {
                                Err(Error::UnsupportedIterationCountZero)
                            } else {
                                Ok(n)
                            }
                        },
                    },
                },
            },
        }
    }
}

/// The lowercase hexadecimal digit for `n` below 16.
pub open spec fn spec_hex_digit(n: u8) -> char {
    if n < 10 {
        (n + 48) as char
    } else {
        (n + 87) as char
    }
}

/// Lowercase hexadecimal spelling of `bytes`, two digits per byte.
pub open spec fn spec_hex_encode(bytes: Seq<u8>) -> Seq<char>
    decreases bytes.len(),
{
    if bytes.len() == 0 {
        Seq::empty()
    } else {
        spec_hex_encode(bytes.drop_last()) + seq![
            spec_hex_digit(bytes.last() >> 4u8),
            spec_hex_digit(bytes.last() & 0x0fu8),
        ]
    }
}

fn hex_value(byte: u8) -> (r: Result<u8, Error>)
    ensures
        match spec_hex_value(byte) {
            Some(v) => r == Ok::<u8, Error>(v),
            None => r == Err::<u8, Error>(Error::InvalidS2kParamsHex(byte as char)),
        },
{
    if 48 <= byte && byte <= 57 {
        Ok(byte - 48)
    } else if 97 <= byte && byte <= 102 {
        Ok(byte - 97 + 10)
    } else if 65 <= byte && byte <= 70 {
        Ok(byte - 65 + 10)
    } else {
        Err(Error::InvalidS2kParamsHex(byte as char))
    }
}

fn hex_pair(high: u8, low: u8) -> (r: Result<u8, Error>)
    ensures
        r == spec_hex_pair(high, low),
{
    let h = match hex_value(high) {
        Ok(v) => v,
        Err(e) => return Err(e),
    };
    let l = match hex_value(low) {
        Ok(v) => v,
        Err(e) => return Err(e),
    };
    Ok((h << 4) | l)
}

fn hex_digit(n: u8) -> (r: char)
    requires
        n < 16,
    ensures
        r == spec_hex_digit(n),
{
    if n < 10 {
        (n + 48) as char
    } else {
        (n + 87) as char
    }
}

pub(crate) fn hex_encode(bytes: &[u8]) -> (r: String)
    ensures
        r@ == spec_hex_encode(bytes@),
{
    let mut out = String::new();
    let mut i: usize = 0;
    while i < bytes.len()
        invariant
            i <= bytes@.len(),
            out@ == spec_hex_encode(bytes@.subrange(0, i as int)),
        decreases bytes@.len() - i,
    {
        let b = bytes[i];
        proof {
            assert((b >> 4u8) < 16u8) by (bit_vector);
            assert((b & 0x0fu8) < 16u8) by (bit_vector);
        }
        string_push(&mut out, hex_digit(b >> 4));
        string_push(&mut out, hex_digit(b & 0x0f));
        i = i + 1;
        proof {
            assert(bytes@.subrange(0, i as int).drop_last() =~= bytes@.subrange(0, i - 1));
            assert(out@ =~= spec_hex_encode(bytes@.subrange(0, i as int)));
        }
    }
    assert(bytes@.subrange(0, bytes@.len() as int) =~= bytes@);
    out
}

/// Convert a Kerberos iteration count to RFC3962 string-to-key parameters.
pub fn iterations_to_s2kparams(iterations: u32) -> (r: String)
    ensures
        r@ == spec_hex_encode(spec_u32_bytes(iterations, Endian::Big)),
{
    let mut bytes: Vec<u8> = Vec::new();
    push_u32(&mut bytes, iterations, Endian::Big);
    assert(bytes@ =~= spec_u32_bytes(iterations, Endian::Big));
    hex_encode(bytes.as_slice())
}

/// Parse RFC3962 string-to-key parameters into an iteration count.
pub fn s2kparams_to_iterations(s2kparams: &str) -> (r: Result<u32, Error>)
    ensures
        r == spec_s2kparams_to_iterations(s2kparams.spec_bytes()),
{
    let bytes = s2kparams.as_bytes();
    if s2kparams.len() != 8 {
        return Err(Error::InvalidS2kParamsLength(s2kparams.len()));
    }
    let b0 = match hex_pair(bytes[0], bytes[1]) {
        Ok(v) => v,
        Err(e) => return Err(e),
    };
    let b1 = match hex_pair(bytes[2], bytes[3]) {
        Ok(v) => v,
        Err(e) => return Err(e),
    };
    let b2 = match hex_pair(bytes[4], bytes[5]) {
        Ok(v) => v,
        Err(e) => return Err(e),
    };
    let b3 = match hex_pair(bytes[6], bytes[7]) {
        Ok(v) => v,
        Err(e) => return Err(e),
    };
    let iterations = decode_u32(b0, b1, b2, b3, Endian::Big);
    if iterations == 0 {
        return Err(Error::UnsupportedIterationCountZero);
    }
    Ok(iterations)
}

// ---------------------------------------------------------------------------
// DES3 keys

/// How many of bits 1 to `p - 1` of `b` are set.
pub open spec fn spec_high_bits_set(b: u8, p: nat) -> nat
    decreases p,
{
    if p <= 1 {
        0
    } else {
        spec_high_bits_set(b, (p - 1) as nat) + if ((b >> ((p - 1) as u8)) & 1u8) == 1u8 {
            1nat
        } else {
            0nat
        }
    }
}

/// `b` with its lowest bit set so that the byte has odd parity.
pub open spec fn spec_odd_parity(b: u8) -> u8 {
    if spec_high_bits_set(b, 8) % 2 == 0 {
        b | 1u8
    } else {
        b & 0xfeu8
    }
}

/// The byte whose bit `k` (for `k` from 1 to 7) holds the lowest bit of
/// `seed[k - 1]`, for the first `n` seed bytes.
pub open spec fn spec_low_bits_byte(seed: Seq<u8>, n: nat) -> u8
    decreases n,
{
    if n == 0 {
        0
    } else {
        spec_low_bits_byte(seed, (n - 1) as nat) | if seed[n - 1] & 1u8 != 0u8 {
            (1u8 << (n as u8))
        } else {
            0u8
        }
    }
}

/// Seven seed bytes stretched to an eight-byte DES key with odd parity:
/// the seed bytes, then a byte of their lowest bits.
pub open spec fn spec_des3_stretch(seed: Seq<u8>) -> Seq<u8> {
    Seq::new(7, |i: int| spec_odd_parity(seed[i])).push(
        spec_odd_parity(spec_low_bits_byte(seed, 7)),
    )
}

/// The DES weak and semi-weak keys.
pub open spec fn spec_des_weak_keys() -> Seq<Seq<u8>> {
    seq![
        seq![0x01u8, 0x01u8, 0x01u8, 0x01u8, 0x01u8, 0x01u8, 0x01u8, 0x01u8],
        seq![0xfeu8, 0xfeu8, 0xfeu8, 0xfeu8, 0xfeu8, 0xfeu8, 0xfeu8, 0xfeu8],
        seq![0xe0u8, 0xe0u8, 0xe0u8, 0xe0u8, 0xf1u8, 0xf1u8, 0xf1u8, 0xf1u8],
        seq![0x1fu8, 0x1fu8, 0x1fu8, 0x1fu8, 0x0eu8, 0x0eu8, 0x0eu8, 0x0eu8],
        seq![0x01u8, 0x1fu8, 0x01u8, 0x1fu8, 0x01u8, 0x0eu8, 0x01u8, 0x0eu8],
        seq![0x1fu8, 0x01u8, 0x1fu8, 0x01u8, 0x0eu8, 0x01u8, 0x0eu8, 0x01u8],
        seq![0x01u8, 0xe0u8, 0x01u8, 0xe0u8, 0x01u8, 0xf1u8, 0x01u8, 0xf1u8],
        seq![0xe0u8, 0x01u8, 0xe0u8, 0x01u8, 0xf1u8, 0x01u8, 0xf1u8, 0x01u8],
        seq![0x01u8, 0xfeu8, 0x01u8, 0xfeu8, 0x01u8, 0xfeu8, 0x01u8, 0xfeu8],
        seq![0xfeu8, 0x01u8, 0xfeu8, 0x01u8, 0xfeu8, 0x01u8, 0xfeu8, 0x01u8],
        seq![0x1fu8, 0xe0u8, 0x1fu8, 0xe0u8, 0x0eu8, 0xf1u8, 0x0eu8, 0xf1u8],
        seq![0xe0u8, 0x1fu8, 0xe0u8, 0x1fu8, 0xf1u8, 0x0eu8, 0xf1u8, 0x0eu8],
        seq![0x1fu8, 0xfeu8, 0x1fu8, 0xfeu8, 0x0eu8, 0xfeu8, 0x0eu8, 0xfeu8],
        seq![0xfeu8, 0x1fu8, 0xfeu8, 0x1fu8, 0xfeu8, 0x0eu8, 0xfeu8, 0x0eu8],
        seq![0xe0u8, 0xfeu8, 0xe0u8, 0xfeu8, 0xf1u8, 0xfeu8, 0xf1u8, 0xfeu8],
        seq![0xfeu8, 0xe0u8, 0xfeu8, 0xe0u8, 0xfeu8, 0xf1u8, 0xfeu8, 0xf1u8],
    ]
}

/// A weak key with the last byte's high half flipped; other keys as given.
pub open spec fn spec_des3_fix_weak_key(block: Seq<u8>) -> Seq<u8> {
    if spec_des_weak_keys().contains(block) {
        block.update(7, block[7] ^ 0xf0u8)
    } else {
        block
    }
}

/// One seven-byte seed to one DES key.
pub open spec fn spec_des3_seed_key(seed: Seq<u8>) -> Seq<u8> {
    spec_des3_fix_weak_key(spec_des3_stretch(seed))
}

/// RFC3961 DES3 random-to-key: 21 seed bytes to a 24-byte key.
pub open spec fn spec_des3_random_to_key(bytes: Seq<u8>) -> Result<Seq<u8>, Error> {
    if bytes.len() != 21 {
        Err(Error::InvalidSeedLength { expected: 21, actual: bytes.len() as usize })
    } else {
        Ok(
            spec_des3_seed_key(bytes.subrange(0, 7)) + spec_des3_seed_key(bytes.subrange(7, 14))
                + spec_des3_seed_key(bytes.subrange(14, 21)),
        )
    }
}

fn bytes_eq(a: &[u8], b: &[u8]) -> (r: bool)
    ensures
        r == (a@ == b@),
{
    if a.len() != b.len() {
        return false;
    }
    let mut i: usize = 0;
    while i < a.len()
        invariant
            a@.len() == b@.len(),
            i <= a@.len(),
            forall|j: int| 0 <= j < i ==> a@[j] == b@[j],
        decreases a@.len() - i,
    {
        if a[i] != b[i] {
            return false;
        }
        i = i + 1;
    }
    assert(a@ =~= b@);
    true
}

fn des3_calc_odd_parity(byte: u8) -> (r: (u8, u8))
    ensures
        r.0 == byte & 1u8,
        r.1 == spec_odd_parity(byte),
{
    let lowest_bit = byte & 0x01;
    let mut count: u8 = 0;
    let mut position: u8 = 1;
    while position < 8
        invariant
            1 <= position <= 8,
            count as nat == spec_high_bits_set(byte, position as nat),
            count < position,
        decreases 8 - position,
    {
        proof {
            assert(((byte & (1u8 << position)) != 0u8) == (((byte >> position) & 1u8) == 1u8))
                by (bit_vector)
                requires
                    position < 8,
            ;
        }
        if byte & (1u8 << position) != 0 {
            count = count + 1;
        }
        position = position + 1;
    }
    if count % 2 == 0 {
        (lowest_bit, byte | 1)
    } else {
        (lowest_bit, byte & 0xfe)
    }
}

fn des3_stretch_56_bits(seed: &[u8]) -> (r: Vec<u8>)
    requires
        seed@.len() == 7,
    ensures
        r@ == spec_des3_stretch(seed@),
{
    let mut out: Vec<u8> = Vec::new();
    let mut last_byte: u8 = 0;
    let mut idx: usize = 0;
    while idx < 7
        invariant
            seed@.len() == 7,
            idx <= 7,
            out@.len() == idx,
            forall|j: int| 0 <= j < idx ==> out@[j] == spec_odd_parity(seed@[j]),
            last_byte == spec_low_bits_byte(seed@, idx as nat),
        decreases 7 - idx,
    {
        let (lowest_bit, adjusted) = des3_calc_odd_parity(seed[idx]);
        out.push(adjusted);
        let shift: u8 = (idx + 1) as u8;
        if lowest_bit != 0 {
            last_byte = last_byte | (1u8 << shift);
        } else {
            assert(last_byte | 0u8 == last_byte) by (bit_vector);
        }
        idx = idx + 1;
    }
    let (_, adjusted_last) = des3_calc_odd_parity(last_byte);
    out.push(adjusted_last);
    assert(out@ =~= spec_des3_stretch(seed@));
    out
}

fn des3_is_weak_key(block: &[u8]) -> (r: bool)
    ensures
        r == spec_des_weak_keys().contains(block@),
{
    let r = bytes_eq(block, &[0x01u8, 0x01u8, 0x01u8, 0x01u8, 0x01u8, 0x01u8, 0x01u8, 0x01u8]) || bytes_eq(block, &[0xfeu8, 0xfeu8, 0xfeu8, 0xfeu8, 0xfeu8, 0xfeu8, 0xfeu8, 0xfeu8]) || bytes_eq(block, &[0xe0u8, 0xe0u8, 0xe0u8, 0xe0u8, 0xf1u8, 0xf1u8, 0xf1u8, 0xf1u8]) || bytes_eq(block, &[0x1fu8, 0x1fu8, 0x1fu8, 0x1fu8, 0x0eu8, 0x0eu8, 0x0eu8, 0x0eu8]) || bytes_eq(block, &[0x01u8, 0x1fu8, 0x01u8, 0x1fu8, 0x01u8, 0x0eu8, 0x01u8, 0x0eu8]) || bytes_eq(block, &[0x1fu8, 0x01u8, 0x1fu8, 0x01u8, 0x0eu8, 0x01u8, 0x0eu8, 0x01u8]) || bytes_eq(block, &[0x01u8, 0xe0u8, 0x01u8, 0xe0u8, 0x01u8, 0xf1u8, 0x01u8, 0xf1u8]) || bytes_eq(block, &[0xe0u8, 0x01u8, 0xe0u8, 0x01u8, 0xf1u8, 0x01u8, 0xf1u8, 0x01u8]) || bytes_eq(block, &[0x01u8, 0xfeu8, 0x01u8, 0xfeu8, 0x01u8, 0xfeu8, 0x01u8, 0xfeu8]) || bytes_eq(block, &[0xfeu8, 0x01u8, 0xfeu8, 0x01u8, 0xfeu8, 0x01u8, 0xfeu8, 0x01u8]) || bytes_eq(block, &[0x1fu8, 0xe0u8, 0x1fu8, 0xe0u8, 0x0eu8, 0xf1u8, 0x0eu8, 0xf1u8]) || bytes_eq(block, &[0xe0u8, 0x1fu8, 0xe0u8, 0x1fu8, 0xf1u8, 0x0eu8, 0xf1u8, 0x0eu8]) || bytes_eq(block, &[0x1fu8, 0xfeu8, 0x1fu8, 0xfeu8, 0x0eu8, 0xfeu8, 0x0eu8, 0xfeu8]) || bytes_eq(block, &[0xfeu8, 0x1fu8, 0xfeu8, 0x1fu8, 0xfeu8, 0x0eu8, 0xfeu8, 0x0eu8]) || bytes_eq(block, &[0xe0u8, 0xfeu8, 0xe0u8, 0xfeu8, 0xf1u8, 0xfeu8, 0xf1u8, 0xfeu8]) || bytes_eq(block, &[0xfeu8, 0xe0u8, 0xfeu8, 0xe0u8, 0xfeu8, 0xf1u8, 0xfeu8, 0xf1u8]);
    proof {
        let ks = spec_des_weak_keys();
        if r {
            assert(exists|i: int| 0 <= i < ks.len() && ks[i] == block@) by {
                if block@ == seq![0x01u8, 0x01u8, 0x01u8, 0x01u8, 0x01u8, 0x01u8, 0x01u8, 0x01u8] { assert(ks[0] == block@); }
                if block@ == seq![0xfeu8, 0xfeu8, 0xfeu8, 0xfeu8, 0xfeu8, 0xfeu8, 0xfeu8, 0xfeu8] { assert(ks[1] == block@); }
                if block@ == seq![0xe0u8, 0xe0u8, 0xe0u8, 0xe0u8, 0xf1u8, 0xf1u8, 0xf1u8, 0xf1u8] { assert(ks[2] == block@); }
                if block@ == seq![0x1fu8, 0x1fu8, 0x1fu8, 0x1fu8, 0x0eu8, 0x0eu8, 0x0eu8, 0x0eu8] { assert(ks[3] == block@); }
                if block@ == seq![0x01u8, 0x1fu8, 0x01u8, 0x1fu8, 0x01u8, 0x0eu8, 0x01u8, 0x0eu8] { assert(ks[4] == block@); }
                if block@ == seq![0x1fu8, 0x01u8, 0x1fu8, 0x01u8, 0x0eu8, 0x01u8, 0x0eu8, 0x01u8] { assert(ks[5] == block@); }
                if block@ == seq![0x01u8, 0xe0u8, 0x01u8, 0xe0u8, 0x01u8, 0xf1u8, 0x01u8, 0xf1u8] { assert(ks[6] == block@); }
                if block@ == seq![0xe0u8, 0x01u8, 0xe0u8, 0x01u8, 0xf1u8, 0x01u8, 0xf1u8, 0x01u8] { assert(ks[7] == block@); }
                if block@ == seq![0x01u8, 0xfeu8, 0x01u8, 0xfeu8, 0x01u8, 0xfeu8, 0x01u8, 0xfeu8] { assert(ks[8] == block@); }
                if block@ == seq![0xfeu8, 0x01u8, 0xfeu8, 0x01u8, 0xfeu8, 0x01u8, 0xfeu8, 0x01u8] { assert(ks[9] == block@); }
                if block@ == seq![0x1fu8, 0xe0u8, 0x1fu8, 0xe0u8, 0x0eu8, 0xf1u8, 0x0eu8, 0xf1u8] { assert(ks[10] == block@); }
                if block@ == seq![0xe0u8, 0x1fu8, 0xe0u8, 0x1fu8, 0xf1u8, 0x0eu8, 0xf1u8, 0x0eu8] { assert(ks[11] == block@); }
                if block@ == seq![0x1fu8, 0xfeu8, 0x1fu8, 0xfeu8, 0x0eu8, 0xfeu8, 0x0eu8, 0xfeu8] { assert(ks[12] == block@); }
                if block@ == seq![0xfeu8, 0x1fu8, 0xfeu8, 0x1fu8, 0xfeu8, 0x0eu8, 0xfeu8, 0x0eu8] { assert(ks[13] == block@); }
                if block@ == seq![0xe0u8, 0xfeu8, 0xe0u8, 0xfeu8, 0xf1u8, 0xfeu8, 0xf1u8, 0xfeu8] { assert(ks[14] == block@); }
                if block@ == seq![0xfeu8, 0xe0u8, 0xfeu8, 0xe0u8, 0xfeu8, 0xf1u8, 0xfeu8, 0xf1u8] { assert(ks[15] == block@); }
            }
        } else {
            assert forall|i: int| 0 <= i < ks.len() implies ks[i] != block@ by {
                assert(ks[0] =~= seq![0x01u8, 0x01u8, 0x01u8, 0x01u8, 0x01u8, 0x01u8, 0x01u8, 0x01u8]);
                assert(ks[1] =~= seq![0xfeu8, 0xfeu8, 0xfeu8, 0xfeu8, 0xfeu8, 0xfeu8, 0xfeu8, 0xfeu8]);
                assert(ks[2] =~= seq![0xe0u8, 0xe0u8, 0xe0u8, 0xe0u8, 0xf1u8, 0xf1u8, 0xf1u8, 0xf1u8]);
                assert(ks[3] =~= seq![0x1fu8, 0x1fu8, 0x1fu8, 0x1fu8, 0x0eu8, 0x0eu8, 0x0eu8, 0x0eu8]);
                assert(ks[4] =~= seq![0x01u8, 0x1fu8, 0x01u8, 0x1fu8, 0x01u8, 0x0eu8, 0x01u8, 0x0eu8]);
                assert(ks[5] =~= seq![0x1fu8, 0x01u8, 0x1fu8, 0x01u8, 0x0eu8, 0x01u8, 0x0eu8, 0x01u8]);
                assert(ks[6] =~= seq![0x01u8, 0xe0u8, 0x01u8, 0xe0u8, 0x01u8, 0xf1u8, 0x01u8, 0xf1u8]);
                assert(ks[7] =~= seq![0xe0u8, 0x01u8, 0xe0u8, 0x01u8, 0xf1u8, 0x01u8, 0xf1u8, 0x01u8]);
                assert(ks[8] =~= seq![0x01u8, 0xfeu8, 0x01u8, 0xfeu8, 0x01u8, 0xfeu8, 0x01u8, 0xfeu8]);
                assert(ks[9] =~= seq![0xfeu8, 0x01u8, 0xfeu8, 0x01u8, 0xfeu8, 0x01u8, 0xfeu8, 0x01u8]);
                assert(ks[10] =~= seq![0x1fu8, 0xe0u8, 0x1fu8, 0xe0u8, 0x0eu8, 0xf1u8, 0x0eu8, 0xf1u8]);
                assert(ks[11] =~= seq![0xe0u8, 0x1fu8, 0xe0u8, 0x1fu8, 0xf1u8, 0x0eu8, 0xf1u8, 0x0eu8]);
                assert(ks[12] =~= seq![0x1fu8, 0xfeu8, 0x1fu8, 0xfeu8, 0x0eu8, 0xfeu8, 0x0eu8, 0xfeu8]);
                assert(ks[13] =~= seq![0xfeu8, 0x1fu8, 0xfeu8, 0x1fu8, 0xfeu8, 0x0eu8, 0xfeu8, 0x0eu8]);
                assert(ks[14] =~= seq![0xe0u8, 0xfeu8, 0xe0u8, 0xfeu8, 0xf1u8, 0xfeu8, 0xf1u8, 0xfeu8]);
                assert(ks[15] =~= seq![0xfeu8, 0xe0u8, 0xfeu8, 0xe0u8, 0xfeu8, 0xf1u8, 0xfeu8, 0xf1u8]);
            }
        }
    }
    r
}

fn des3_random_to_key(bytes: &[u8]) -> (r: Result<Vec<u8>, Error>)
    ensures
        match r {
            Ok(k) => spec_des3_random_to_key(bytes@) == Ok::<Seq<u8>, Error>(k@),
            Err(e) => spec_des3_random_to_key(bytes@) == Err::<Seq<u8>, Error>(e),
        },
{
    if bytes.len() != 21 {
        return Err(Error::InvalidSeedLength { expected: 21, actual: bytes.len() });
    }
    let mut key: Vec<u8> = Vec::new();
    let mut k: usize = 0;
    while k < 3
        invariant
            bytes@.len() == 21,
            k <= 3,
            key@ == if k == 0 {
                Seq::<u8>::empty()
            } else if k == 1 {
                spec_des3_seed_key(bytes@.subrange(0, 7))
            } else if k == 2 {
                spec_des3_seed_key(bytes@.subrange(0, 7)) + spec_des3_seed_key(
                    bytes@.subrange(7, 14),
                )
            } else {
                spec_des3_seed_key(bytes@.subrange(0, 7)) + spec_des3_seed_key(
                    bytes@.subrange(7, 14),
                ) + spec_des3_seed_key(bytes@.subrange(14, 21))
            },
        decreases 3 - k,
    {
        let start = k * 7;
        let mut block = des3_stretch_56_bits(&bytes[start..start + 7]);
        if des3_is_weak_key(block.as_slice()) {
            let b7 = block[7] ^ 0xf0;
            block.set(7, b7);
        }
        let ghost before = key@;
        extend_bytes(&mut key, block.as_slice());
        proof {
            assert(block@ == spec_des3_seed_key(bytes@.subrange(start as int, start + 7)));
            if k == 0 {
                assert(key@ =~= spec_des3_seed_key(bytes@.subrange(0, 7)));
            }
        }
        k = k + 1;
    }
    Ok(key)
}

// ---------------------------------------------------------------------------
// Shared pieces of the profiles

/// A byte-string result taken by its view.
pub open spec fn spec_bytes_result(r: Result<Vec<u8>, Error>) -> Result<Seq<u8>, Error> {
    match r {
        Ok(v) => Ok(v@),
        Err(e) => Err(e),
    }
}

/// A `(next_iv, ciphertext)` result taken by its view.
pub open spec fn spec_pair_result(r: Result<(Vec<u8>, Vec<u8>), Error>) -> Result<
    (Seq<u8>, Seq<u8>),
    Error,
> {
    match r {
        Ok((a, b)) => Ok((a@, b@)),
        Err(e) => Err(e),
    }
}

/// The ASCII bytes of `kerberos`, the string-to-key derivation constant.
pub open spec fn spec_kerberos_constant() -> Seq<u8> {
    seq![0x6bu8, 0x65u8, 0x72u8, 0x62u8, 0x65u8, 0x72u8, 0x6fu8, 0x73u8]
}

fn kerberos_constant() -> (r: Vec<u8>)
    ensures
        r@ == spec_kerberos_constant(),
{
    let r = vec![0x6bu8, 0x65u8, 0x72u8, 0x62u8, 0x65u8, 0x72u8, 0x6fu8, 0x73u8];
    assert(r@ =~= spec_kerberos_constant());
    r
}

/// An error unless `key` has `expected` bytes.
pub open spec fn spec_check_key(key: Seq<u8>, expected: nat) -> Result<(), Error> {
    if key.len() != expected {
        Err(Error::InvalidKeyLength { expected: expected as usize, actual: key.len() as usize })
    } else {
        Ok(())
    }
}

fn check_key(key: &[u8], expected: usize) -> (r: Result<(), Error>)
    ensures
        r == spec_check_key(key@, expected as nat),
{
    if key.len() != expected {
        Err(Error::InvalidKeyLength { expected, actual: key.len() })
    } else {
        Ok(())
    }
}

/// `a` followed by `b`.
fn concat(a: &[u8], b: &[u8]) -> (r: Vec<u8>)
    requires
        spec_len_fits(a@.len()),
        spec_len_fits(b@.len()),
    ensures
        r@ == a@ + b@,
{
    let mut out = copy_bytes(a);
    extend_bytes(&mut out, b);
    out
}

/// The ciphertext that encrypting `data` gives, or nothing on error.
pub open spec fn spec_encrypt_data_ct(c: BlockCipher, key: Seq<u8>, data: Seq<u8>) -> Seq<u8> {
    match c {
        BlockCipher::Aes => match spec_aes_cts_encrypt(key, data) {
            Ok((_, ct)) => ct,
            Err(_) => Seq::empty(),
        },
        BlockCipher::Tdes => match spec_des3_cbc_encrypt(key, data) {
            Ok((_, ct)) => ct,
            Err(_) => Seq::empty(),
        },
    }
}

/// RFC3961 DR output stream: `need` bytes of `block`, then of its
/// encryption, then of that one's, and so on.
pub open spec fn spec_dr_stream(c: BlockCipher, key: Seq<u8>, block: Seq<u8>, need: nat) -> Seq<u8>
    decreases need,
{
    if block.len() == 0 {
        Seq::empty()
    } else if need <= block.len() {
        block.subrange(0, need as int)
    } else {
        block + spec_dr_stream(
            c,
            key,
            spec_encrypt_data_ct(c, key, block),
            (need - block.len()) as nat,
        )
    }
}

/// The ciphertext of one block; for a single block the encryption cannot
/// fail.
fn encrypt_one_block(c: BlockCipher, key: &[u8], block: &[u8]) -> (r: Vec<u8>)
    requires
        c == BlockCipher::Aes ==> key@.len() == 16 || key@.len() == 32,
        c == BlockCipher::Tdes ==> key@.len() == 24,
        block@.len() == crate::cipher_modes::spec_block_len(c),
    ensures
        r@ == spec_encrypt_data_ct(c, key@, block@),
        r@.len() == crate::cipher_modes::spec_block_len(c),
{
    match c {
        BlockCipher::Aes => match aes_cts_encrypt(key, block) {
            Ok((_, ct)) => ct,
            Err(_) => {
                assert(false);
                Vec::new()
            },
        },
        BlockCipher::Tdes => match des3_cbc_encrypt(key, block) {
            Ok((_, ct)) => ct,
            Err(_) => {
                assert(false);
                Vec::new()
            },
        },
    }
}

/// The DR stream of `need` bytes starting from `block`.
fn dr_stream(c: BlockCipher, key: &[u8], first: Vec<u8>, need: usize) -> (r: Vec<u8>)
    requires
        first@.len() == crate::cipher_modes::spec_block_len(c),
        c == BlockCipher::Aes ==> key@.len() == 16 || key@.len() == 32,
        c == BlockCipher::Tdes ==> key@.len() == 24,
    ensures
        r@ == spec_dr_stream(c, key@, first@, need as nat),
{
    let mut out: Vec<u8> = Vec::new();
    let mut block = first;
    while out.len() < need
        invariant
            block@.len() == crate::cipher_modes::spec_block_len(c),
            out@.len() <= need,
            c == BlockCipher::Aes ==> key@.len() == 16 || key@.len() == 32,
            c == BlockCipher::Tdes ==> key@.len() == 24,
            out@ + spec_dr_stream(c, key@, block@, (need - out@.len()) as nat) == spec_dr_stream(
                c,
                key@,
                first@,
                need as nat,
            ),
        decreases need - out@.len(),
    {
        let remaining = need - out.len();
        let ghost before = out@;
        if remaining <= block.len() {
            extend_bytes(&mut out, &block.as_slice()[0..remaining]);
            proof {
                assert(spec_dr_stream(c, key@, block@, 0) =~= Seq::<u8>::empty());
                assert(out@ + spec_dr_stream(c, key@, block@, 0) =~= before + spec_dr_stream(
                    c,
                    key@,
                    block@,
                    remaining as nat,
                ));
            }
        } else {
            extend_bytes(&mut out, block.as_slice());
            let next = encrypt_one_block(c, key, block.as_slice());
            proof {
                assert(before + spec_dr_stream(c, key@, block@, remaining as nat) =~= out@
                    + spec_dr_stream(c, key@, next@, (need - out@.len()) as nat));
            }
            block = next;
        }
    }
    proof {
        assert(spec_dr_stream(c, key@, block@, 0) =~= Seq::<u8>::empty());
        assert(out@ + Seq::<u8>::empty() =~= out@);
    }
    out
}

/// `hmac_sha1` cut to its first 12 bytes.
pub open spec fn spec_hmac_sha1_96(key: Seq<u8>, data: Seq<u8>) -> Seq<u8> {
    hmac_sha1(key, data).subrange(0, 12)
}

fn hmac_sha1_96(key: &[u8], data: &[u8]) -> (r: Vec<u8>)
    ensures
        r@ == spec_hmac_sha1_96(key@, data@),
        hmac_sha1(key@, data@).len() == 20,
{
    let full = hmac_sha1_tag(key, data);
    copy_bytes(&full.as_slice()[0..12])
}

// ---------------------------------------------------------------------------
// RFC3962 AES-SHA1

/// Kerberos AES CTS-HMAC-SHA1-96 encryption type.
#[derive(Clone, Copy, Debug, Eq, PartialEq)]
pub enum AesSha1Etype {
    /// `aes128-cts-hmac-sha1-96`, etype 17.
    Aes128,
    /// `aes256-cts-hmac-sha1-96`, etype 18.
    Aes256,
}

impl AesSha1Etype {
    /// Protocol key size in bytes.
    pub open spec fn spec_key_len(self) -> nat {
        match self {
            AesSha1Etype::Aes128 => 16,
            AesSha1Etype::Aes256 => 32,
        }
    }

    /// Encryption of raw bytes: the key is checked, then AES-CTS.
    pub open spec fn spec_encrypt_data(self, key: Seq<u8>, plain: Seq<u8>) -> Result<
        (Seq<u8>, Seq<u8>),
        Error,
    > {
        match spec_check_key(key, self.spec_key_len()) {
            Err(e) => Err(e),
            Ok(_) => spec_aes_cts_encrypt(key, plain),
        }
    }

    /// Decryption of raw bytes: the key is checked, then AES-CTS.
    pub open spec fn spec_decrypt_data(self, key: Seq<u8>, cipher: Seq<u8>) -> Result<
        Seq<u8>,
        Error,
    > {
        match spec_check_key(key, self.spec_key_len()) {
            Err(e) => Err(e),
            Ok(_) => spec_aes_cts_decrypt(key, cipher),
        }
    }

    /// RFC3961 DR: the usage n-folded to one block, encrypted, and the
    /// encryption stream cut to the key length.
    pub open spec fn spec_derive_random(self, key: Seq<u8>, usage: Seq<u8>) -> Result<
        Seq<u8>,
        Error,
    > {
        match spec_check_key(key, self.spec_key_len()) {
            Err(e) => Err(e),
            Ok(_) => if usage.len() == 0 {
                Err(Error::EmptyUsage)
            } else {
                match spec_nfold(usage, 128) {
                    Err(e) => Err(e),
                    Ok(folded) => match self.spec_encrypt_data(key, folded) {
                        Err(e) => Err(e),
                        Ok((_, block)) => Ok(
                            spec_dr_stream(BlockCipher::Aes, key, block, self.spec_key_len()),
                        ),
                    },
                }
            },
        }
    }

    /// Usage key derivation: DR after the key check.
    pub open spec fn spec_derive_key(self, key: Seq<u8>, usage: Seq<u8>) -> Result<Seq<u8>, Error> {
        match spec_check_key(key, self.spec_key_len()) {
            Err(e) => Err(e),
            Ok(_) => self.spec_derive_random(key, usage),
        }
    }

    /// The keyed checksum: HMAC-SHA1-96 under the usage's checksum key.
    pub open spec fn spec_checksum(self, key: Seq<u8>, data: Seq<u8>, usage: u32) -> Result<
        Seq<u8>,
        Error,
    > {
        match self.spec_derive_key(key, spec_usage_constant(usage, 0x99)) {
            Err(e) => Err(e),
            Ok(k) => Ok(spec_hmac_sha1_96(k, data)),
        }
    }

    /// RFC3962 string-to-key: PBKDF2-HMAC-SHA1 of the password and salt
    /// with the parameters' iteration count, then derived with `kerberos`.
    pub open spec fn spec_string_to_key(self, secret: Seq<u8>, salt: Seq<u8>, s2kparams: Seq<u8>) -> Result<
        Seq<u8>,
        Error,
    > {
        match spec_s2kparams_to_iterations(s2kparams) {
            Err(e) => Err(e),
            Ok(iterations) => self.spec_derive_key(
                pbkdf2_sha1(secret, salt, iterations, self.spec_key_len()),
                spec_kerberos_constant(),
            ),
        }
    }

    /// An encrypted message: AES-CTS of confounder and message under the
    /// usage's encryption key, then HMAC-SHA1-96 of confounder and message
    /// under its integrity key.
    pub open spec fn spec_encrypt_message(
        self,
        key: Seq<u8>,
        message: Seq<u8>,
        usage: u32,
        confounder: Seq<u8>,
    ) -> Result<Seq<u8>, Error> {
        match spec_check_key(key, self.spec_key_len()) {
            Err(e) => Err(e),
            Ok(_) => if confounder.len() != 16 {
                Err(Error::InvalidConfounderLength { expected: 16, actual: confounder.len() as usize })
            } else {
                let plain = confounder + message;
                match self.spec_derive_key(key, spec_usage_constant(usage, 0xaa)) {
                    Err(e) => Err(e),
                    Ok(ek) => match self.spec_encrypt_data(ek, plain) {
                        Err(e) => Err(e),
                        Ok((_, encrypted)) => match self.spec_derive_key(
                            key,
                            spec_usage_constant(usage, 0x55),
                        ) {
                            Err(e) => Err(e),
                            Ok(ik) => Ok(encrypted + spec_hmac_sha1_96(ik, plain)),
                        },
                    },
                }
            },
        }
    }

    /// A decrypted message: the trailing 12-byte hash is split off, the rest
    /// decrypted under the usage's encryption key, the hash checked under
    /// its integrity key, and the confounder dropped.
    pub open spec fn spec_decrypt_message(self, key: Seq<u8>, ciphertext: Seq<u8>, usage: u32) -> Result<
        Seq<u8>,
        Error,
    > {
        match spec_check_key(key, self.spec_key_len()) {
            Err(e) => Err(e),
            Ok(_) => if ciphertext.len() < 28 {
                Err(Error::CiphertextTooShort { minimum: 28, actual: ciphertext.len() as usize })
            } else {
                let n = ciphertext.len() as int;
                let encrypted = ciphertext.subrange(0, n - 12);
                let mac = ciphertext.subrange(n - 12, n);
                match self.spec_derive_key(key, spec_usage_constant(usage, 0xaa)) {
                    Err(e) => Err(e),
                    Ok(ek) => match self.spec_decrypt_data(ek, encrypted) {
                        Err(e) => Err(e),
                        Ok(plain) => if plain.len() < 16 {
                            Err(Error::PlaintextTooShort { minimum: 16, actual: plain.len() as usize })
                        } else {
                            match self.spec_derive_key(key, spec_usage_constant(usage, 0x55)) {
                                Err(e) => Err(e),
                                Ok(ik) => if spec_hmac_sha1_96(ik, plain) != mac {
                                    Err(Error::IntegrityCheckFailed)
                                } else {
                                    Ok(plain.subrange(16, plain.len() as int))
                                },
                            }
                        },
                    },
                }
            },
        }
    }

    /// Return the AES-SHA1 encryption type for a Kerberos etype id.
    pub fn from_etype_id(etype_id: i32) -> (r: Option<Self>)
        ensures
            r == (if etype_id == 17 {
                Some(AesSha1Etype::Aes128)
            } else if etype_id == 18 {
                Some(AesSha1Etype::Aes256)
            } else {
                None
            }),
    {
        match etype_id {
            17 => Some(AesSha1Etype::Aes128),
            18 => Some(AesSha1Etype::Aes256),
            _ => None,
        }
    }

    /// Kerberos encryption type ID.
    pub fn etype_id(self) -> (r: i32)
        ensures
            r == (match self {
                AesSha1Etype::Aes128 => 17i32,
                AesSha1Etype::Aes256 => 18i32,
            }),
    {
        match self {
            AesSha1Etype::Aes128 => 17,
            AesSha1Etype::Aes256 => 18,
        }
    }

    /// Kerberos checksum type ID.
    pub fn checksum_type_id(self) -> (r: i32)
        ensures
            r == (match self {
                AesSha1Etype::Aes128 => 15i32,
                AesSha1Etype::Aes256 => 16i32,
            }),
    {
        match self {
            AesSha1Etype::Aes128 => 15,
            AesSha1Etype::Aes256 => 16,
        }
    }

    /// Protocol key size in bytes.
    pub fn key_len(self) -> (r: usize)
        ensures
            r == self.spec_key_len(),
    {
        match self {
            AesSha1Etype::Aes128 => 16,
            AesSha1Etype::Aes256 => 32,
        }
    }

    /// Confounder size in bytes.
    pub fn confounder_len(self) -> (r: usize)
        ensures
            r == 16,
    {
        16
    }

    /// Truncated SHA-1 HMAC size in bytes.
    pub fn hmac_len(self) -> (r: usize)
        ensures
            r == 12,
    {
        12
    }

    /// Default RFC3962 string-to-key parameters, encoded as big-endian hex:
    /// 4096 iterations.
    pub fn default_s2kparams(self) -> (r: &'static str)
        ensures
            r@ == seq!['0', '0', '0', '0', '1', '0', '0', '0'],
    {
        let s = "00001000";
        proof {
            reveal_strlit("00001000");
        }
        assert(s@ =~= seq!['0', '0', '0', '0', '1', '0', '0', '0']);
        s
    }

    /// Derive the PBKDF2 intermediate key for RFC3962 string-to-key.
    pub fn string_to_pbkdf2(self, secret: &[u8], salt: &[u8], iterations: u32) -> (r: Vec<u8>)
        ensures
            r@ == pbkdf2_sha1(secret@, salt@, iterations, self.spec_key_len()),
    {
        pbkdf2_hmac_sha1(secret, salt, iterations, self.key_len())
    }

    /// Derive an AES protocol key from a password and salt.
    ///
    /// `s2kparams` must be the Kerberos four-byte iteration count encoded as
    /// eight hex characters. The RFC3962 zero value means 2^32 iterations;
    /// it is refused rather than run.
    pub fn string_to_key(self, secret: &[u8], salt: &[u8], s2kparams: &str) -> (r: Result<
        Vec<u8>,
        Error,
    >)
        ensures
            spec_bytes_result(r) == self.spec_string_to_key(secret@, salt@, s2kparams.spec_bytes()),
    {
        let iterations = match s2kparams_to_iterations(s2kparams) {
            Ok(n) => n,
            Err(e) => return Err(e),
        };
        let tkey = self.string_to_pbkdf2(secret, salt, iterations);
        let constant = kerberos_constant();
        self.derive_key(tkey.as_slice(), constant.as_slice())
    }

    /// Derive a usage-specific key from a protocol key.
    pub fn derive_key(self, protocol_key: &[u8], usage: &[u8]) -> (r: Result<Vec<u8>, Error>)
        requires
            spec_nfold_fits(usage@, 128),
        ensures
            spec_bytes_result(r) == self.spec_derive_key(protocol_key@, usage@),
    {
        match check_key(protocol_key, self.key_len()) {
            Err(e) => return Err(e),
            Ok(_) => {},
        }
        self.derive_random(protocol_key, usage)
    }

    /// RFC3961 DR function for AES.
    pub fn derive_random(self, protocol_key: &[u8], usage: &[u8]) -> (r: Result<Vec<u8>, Error>)
        requires
            spec_nfold_fits(usage@, 128),
        ensures
            spec_bytes_result(r) == self.spec_derive_random(protocol_key@, usage@),
    {
        match check_key(protocol_key, self.key_len()) {
            Err(e) => return Err(e),
            Ok(_) => {},
        }
        if usage.len() == 0 {
            return Err(Error::EmptyUsage);
        }
        let folded = match nfold(usage, 128) {
            Ok(f) => f,
            Err(e) => return Err(e),
        };
        let block = match self.encrypt_data(protocol_key, folded.as_slice()) {
            Ok((_, b)) => b,
            Err(e) => return Err(e),
        };
        Ok(dr_stream(BlockCipher::Aes, protocol_key, block, self.key_len()))
    }

    /// Calculate the keyed checksum for message bytes and a Kerberos key usage.
    pub fn checksum(self, protocol_key: &[u8], data: &[u8], usage: u32) -> (r: Result<
        Vec<u8>,
        Error,
    >)
        ensures
            spec_bytes_result(r) == self.spec_checksum(protocol_key@, data@, usage),
    {
        let constant = usage_constant(usage, 0x99);
        let key = match self.derive_key(protocol_key, constant.as_slice()) {
            Ok(k) => k,
            Err(e) => return Err(e),
        };
        Ok(hmac_sha1_96(key.as_slice(), data))
    }

    /// Verify a keyed checksum.
    pub fn verify_checksum(self, protocol_key: &[u8], data: &[u8], checksum: &[u8], usage: u32) -> (r:
        bool)
        ensures
            r == (self.spec_checksum(protocol_key@, data@, usage) == Ok::<Seq<u8>, Error>(
                checksum@,
            )),
    {
        match self.checksum(protocol_key, data, usage) {
            Ok(expected) => constant_time_eq(expected.as_slice(), checksum),
            Err(_) => false,
        }
    }

    /// Encrypt raw bytes with RFC3962 AES-CTS and a zero initial IV.
    ///
    /// Returns `(next_iv, ciphertext)`.
    pub fn encrypt_data(self, key: &[u8], plaintext: &[u8]) -> (r: Result<(Vec<u8>, Vec<u8>), Error>)
        requires
            spec_len_fits(plaintext@.len()),
        ensures
            spec_pair_result(r) == self.spec_encrypt_data(key@, plaintext@),
            r matches Ok((iv, ct)) ==> ct@.len() == if plaintext@.len() <= 16 {
                16
            } else {
                plaintext@.len()
            },
            r is Ok ==> spec_block_cipher_inverts(BlockCipher::Aes, key@),
    {
        match check_key(key, self.key_len()) {
            Err(e) => return Err(e),
            Ok(_) => {},
        }
        aes_cts_encrypt(key, plaintext)
    }

    /// Decrypt raw bytes with RFC3962 AES-CTS and a zero initial IV.
    pub fn decrypt_data(self, key: &[u8], ciphertext: &[u8]) -> (r: Result<Vec<u8>, Error>)
        requires
            spec_len_fits(ciphertext@.len()),
        ensures
            spec_bytes_result(r) == self.spec_decrypt_data(key@, ciphertext@),
    {
        match check_key(key, self.key_len()) {
            Err(e) => return Err(e),
            Ok(_) => {},
        }
        aes_cts_decrypt(key, ciphertext)
    }

    /// Encrypt a Kerberos message with an explicit confounder.
    ///
    /// The explicit confounder keeps results deterministic and lets callers
    /// choose their own randomness. The returned bytes are ciphertext plus
    /// the RFC3962 integrity hash.
    pub fn encrypt_message_with_confounder(
        self,
        protocol_key: &[u8],
        message: &[u8],
        usage: u32,
        confounder: &[u8],
    ) -> (r: Result<Vec<u8>, Error>)
        requires
            spec_len_fits(message@.len() + 16),
        ensures
            spec_bytes_result(r) == self.spec_encrypt_message(
                protocol_key@,
                message@,
                usage,
                confounder@,
            ),
            r is Ok ==> self.spec_message_keys_behave(protocol_key@, message@, usage, confounder@),
            r matches Ok(ct) ==> self.spec_decrypt_message(protocol_key@, ct@, usage) == Ok::<
                Seq<u8>,
                Error,
            >(message@),
    {
        match check_key(protocol_key, self.key_len()) {
            Err(e) => return Err(e),
            Ok(_) => {},
        }
        if confounder.len() != 16 {
            return Err(Error::InvalidConfounderLength { expected: 16, actual: confounder.len() });
        }
        let plain = concat(confounder, message);
        let ec = usage_constant(usage, 0xaa);
        let encryption_key = match self.derive_key(protocol_key, ec.as_slice()) {
            Ok(k) => k,
            Err(e) => return Err(e),
        };
        let mut encrypted = match self.encrypt_data(encryption_key.as_slice(), plain.as_slice()) {
            Ok((_, ct)) => ct,
            Err(e) => return Err(e),
        };
        let ic = usage_constant(usage, 0x55);
        let integrity_key = match self.derive_key(protocol_key, ic.as_slice()) {
            Ok(k) => k,
            Err(e) => return Err(e),
        };
        let mac = hmac_sha1_96(integrity_key.as_slice(), plain.as_slice());
        extend_bytes(&mut encrypted, mac.as_slice());
        proof {
            self.lemma_message_roundtrip(protocol_key@, message@, usage, confounder@);
        }
        Ok(encrypted)
    }

    /// Decrypt a Kerberos message and verify its RFC3962 integrity hash.
    pub fn decrypt_message(self, protocol_key: &[u8], ciphertext: &[u8], usage: u32) -> (r: Result<
        Vec<u8>,
        Error,
    >)
        requires
            spec_len_fits(ciphertext@.len()),
        ensures
            spec_bytes_result(r) == self.spec_decrypt_message(protocol_key@, ciphertext@, usage),
    {
        match check_key(protocol_key, self.key_len()) {
            Err(e) => return Err(e),
            Ok(_) => {},
        }
        let n = ciphertext.len();
        if n < 28 {
            return Err(Error::CiphertextTooShort { minimum: 28, actual: n });
        }
        let encrypted = &ciphertext[0..n - 12];
        let mac = &ciphertext[n - 12..n];
        let ec = usage_constant(usage, 0xaa);
        let encryption_key = match self.derive_key(protocol_key, ec.as_slice()) {
            Ok(k) => k,
            Err(e) => return Err(e),
        };
        let plain = match self.decrypt_data(encryption_key.as_slice(), encrypted) {
            Ok(p) => p,
            Err(e) => return Err(e),
        };
        if plain.len() < 16 {
            return Err(Error::PlaintextTooShort { minimum: 16, actual: plain.len() });
        }
        let ic = usage_constant(usage, 0x55);
        let integrity_key = match self.derive_key(protocol_key, ic.as_slice()) {
            Ok(k) => k,
            Err(e) => return Err(e),
        };
        let expected = hmac_sha1_96(integrity_key.as_slice(), plain.as_slice());
        if !constant_time_eq(expected.as_slice(), mac) {
            return Err(Error::IntegrityCheckFailed);
        }
        Ok(copy_bytes(&plain.as_slice()[16..plain.len()]))
    }
}

// ---------------------------------------------------------------------------
// RFC8009 AES-SHA2

/// Kerberos RFC8009 AES CTS-HMAC-SHA2 encryption type.
#[derive(Clone, Copy, Debug, Eq, PartialEq)]
pub enum AesSha2Etype {
    /// `aes128-cts-hmac-sha256-128`, etype 19.
    Aes128,
    /// `aes256-cts-hmac-sha384-192`, etype 20.
    Aes256,
}

impl AesSha2Etype {
    /// Protocol base key size in bytes.
    pub open spec fn spec_key_len(self) -> nat {
        match self {
            AesSha2Etype::Aes128 => 16,
            AesSha2Etype::Aes256 => 32,
        }
    }

    /// Truncated HMAC size in bytes.
    pub open spec fn spec_hmac_len(self) -> nat {
        match self {
            AesSha2Etype::Aes128 => 16,
            AesSha2Etype::Aes256 => 24,
        }
    }

    /// Hash output size in bytes.
    pub open spec fn spec_hash_len(self) -> nat {
        match self {
            AesSha2Etype::Aes128 => 32,
            AesSha2Etype::Aes256 => 48,
        }
    }

    /// The encryption type's RFC8009 name.
    pub open spec fn spec_ename(self) -> Seq<char> {
        match self {
            AesSha2Etype::Aes128 => seq![
                'a', 'e', 's', '1', '2', '8', '-', 'c', 't', 's', '-', 'h', 'm', 'a', 'c', '-', 's',
                'h', 'a', '2', '5', '6', '-', '1', '2', '8',
            ],
            AesSha2Etype::Aes256 => seq![
                'a', 'e', 's', '2', '5', '6', '-', 'c', 't', 's', '-', 'h', 'm', 'a', 'c', '-', 's',
                'h', 'a', '3', '8', '4', '-', '1', '9', '2',
            ],
        }
    }

    /// HMAC with the profile's hash: SHA-256 or SHA-384.
    pub open spec fn spec_hmac(self, key: Seq<u8>, data: Seq<u8>) -> Seq<u8> {
        match self {
            AesSha2Etype::Aes128 => hmac_sha256(key, data),
            AesSha2Etype::Aes256 => hmac_sha384(key, data),
        }
    }

    /// The HMAC cut to the profile's checksum size.
    pub open spec fn spec_truncated_hmac(self, key: Seq<u8>, data: Seq<u8>) -> Seq<u8> {
        self.spec_hmac(key, data).subrange(0, self.spec_hmac_len() as int)
    }

    /// RFC8009 KDF-HMAC-SHA2: the HMAC of a counter of 1, the label, a zero
    /// byte, the context and the output length in bits, cut to that length.
    pub open spec fn spec_kdf(self, key: Seq<u8>, label: Seq<u8>, context: Seq<u8>, bits: nat) -> Seq<
        u8,
    > {
        let input = spec_u32_bytes(1, Endian::Big) + label + seq![0u8] + context + spec_u32_bytes(
            bits as u32,
            Endian::Big,
        );
        self.spec_hmac(key, input).subrange(0, (bits / 8) as int)
    }

    /// Output size in bits of a key derived with `label`: 128 for AES-128;
    /// for AES-256, 256 for `kerberos` and encryption keys (label ending in
    /// `0xaa`) and 192 otherwise.
    pub open spec fn spec_derive_key_bits(self, label: Seq<u8>) -> nat {
        match self {
            AesSha2Etype::Aes128 => 128,
            AesSha2Etype::Aes256 => if label == spec_kerberos_constant() {
                256
            } else if label.len() > 0 && label.last() == 0xaau8 {
                256
            } else {
                192
            },
        }
    }

    /// RFC8009 salt: the encryption type name, a zero byte, and the salt.
    pub open spec fn spec_saltp(self, salt: Seq<u8>) -> Seq<u8> {
        vstd::utf8::encode_utf8(self.spec_ename()) + seq![0u8] + salt
    }

    /// PBKDF2 with the profile's hash.
    pub open spec fn spec_string_to_pbkdf2(self, secret: Seq<u8>, salt: Seq<u8>, iterations: u32) -> Seq<
        u8,
    > {
        match self {
            AesSha2Etype::Aes128 => pbkdf2_sha256(secret, salt, iterations, 16),
            AesSha2Etype::Aes256 => pbkdf2_sha384(secret, salt, iterations, 32),
        }
    }

    /// Usage key derivation.
    pub open spec fn spec_derive_key(self, key: Seq<u8>, label: Seq<u8>) -> Result<Seq<u8>, Error> {
        match spec_check_key(key, self.spec_key_len()) {
            Err(e) => Err(e),
            Ok(_) => if label.len() == 0 {
                Err(Error::EmptyUsage)
            } else {
                Ok(self.spec_kdf(key, label, Seq::empty(), self.spec_derive_key_bits(label)))
            },
        }
    }

    /// RFC8009 PRF.
    pub open spec fn spec_derive_random(self, key: Seq<u8>, usage: Seq<u8>) -> Result<
        Seq<u8>,
        Error,
    > {
        match spec_check_key(key, self.spec_key_len()) {
            Err(e) => Err(e),
            Ok(_) => if usage.len() == 0 {
                Err(Error::EmptyUsage)
            } else {
                Ok(
                    self.spec_kdf(
                        key,
                        seq![0x70u8, 0x72u8, 0x66u8],
                        usage,
                        self.spec_hash_len() * 8,
                    ),
                )
            },
        }
    }

    /// The keyed checksum: the truncated HMAC under the usage's checksum key.
    pub open spec fn spec_checksum(self, key: Seq<u8>, data: Seq<u8>, usage: u32) -> Result<
        Seq<u8>,
        Error,
    > {
        match self.spec_derive_key(key, spec_usage_constant(usage, 0x99)) {
            Err(e) => Err(e),
            Ok(k) => Ok(self.spec_truncated_hmac(k, data)),
        }
    }

    /// RFC8009 string-to-key.
    pub open spec fn spec_string_to_key(self, secret: Seq<u8>, salt: Seq<u8>, s2kparams: Seq<u8>) -> Result<
        Seq<u8>,
        Error,
    > {
        match spec_s2kparams_to_iterations(s2kparams) {
            Err(e) => Err(e),
            Ok(iterations) => self.spec_derive_key(
                self.spec_string_to_pbkdf2(secret, self.spec_saltp(salt), iterations),
                spec_kerberos_constant(),
            ),
        }
    }

    /// Encryption of raw bytes under a derived key: AES-CTS.
    pub open spec fn spec_encrypt_data(self, key: Seq<u8>, plain: Seq<u8>) -> Result<
        (Seq<u8>, Seq<u8>),
        Error,
    > {
        match spec_check_key(key, self.spec_key_len()) {
            Err(e) => Err(e),
            Ok(_) => spec_aes_cts_encrypt(key, plain),
        }
    }

    /// Decryption of raw bytes under a derived key: AES-CTS.
    pub open spec fn spec_decrypt_data(self, key: Seq<u8>, cipher: Seq<u8>) -> Result<
        Seq<u8>,
        Error,
    > {
        match spec_check_key(key, self.spec_key_len()) {
            Err(e) => Err(e),
            Ok(_) => spec_aes_cts_decrypt(key, cipher),
        }
    }

    /// The RFC8009 integrity hash: the truncated HMAC, under the usage's
    /// integrity key, of a zero block followed by the AES output.
    pub open spec fn spec_integrity_hash(self, key: Seq<u8>, usage: u32, encrypted: Seq<u8>) -> Result<
        Seq<u8>,
        Error,
    > {
        match self.spec_derive_key(key, spec_usage_constant(usage, 0x55)) {
            Err(e) => Err(e),
            Ok(ik) => Ok(self.spec_truncated_hmac(ik, spec_zeros(16) + encrypted)),
        }
    }

    /// An encrypted message: AES-CTS of confounder and message, then the
    /// integrity hash of the AES output.
    pub open spec fn spec_encrypt_message(
        self,
        key: Seq<u8>,
        message: Seq<u8>,
        usage: u32,
        confounder: Seq<u8>,
    ) -> Result<Seq<u8>, Error> {
        match spec_check_key(key, self.spec_key_len()) {
            Err(e) => Err(e),
            Ok(_) => if confounder.len() != 16 {
                Err(Error::InvalidConfounderLength { expected: 16, actual: confounder.len() as usize })
            } else {
                match self.spec_derive_key(key, spec_usage_constant(usage, 0xaa)) {
                    Err(e) => Err(e),
                    Ok(ek) => match self.spec_encrypt_data(ek, confounder + message) {
                        Err(e) => Err(e),
                        Ok((_, encrypted)) => match self.spec_integrity_hash(key, usage, encrypted) {
                            Err(e) => Err(e),
                            Ok(mac) => Ok(encrypted + mac),
                        },
                    },
                }
            },
        }
    }

    /// A decrypted message: the trailing hash is split off, the rest
    /// decrypted, the hash of the AES output checked, and the confounder
    /// dropped.
    pub open spec fn spec_decrypt_message(self, key: Seq<u8>, ciphertext: Seq<u8>, usage: u32) -> Result<
        Seq<u8>,
        Error,
    > {
        let h = self.spec_hmac_len();
        match spec_check_key(key, self.spec_key_len()) {
            Err(e) => Err(e),
            Ok(_) => if ciphertext.len() < h + 16 {
                Err(
                    Error::CiphertextTooShort {
                        minimum: (h + 16) as usize,
                        actual: ciphertext.len() as usize,
                    },
                )
            } else {
                let n = ciphertext.len() as int;
                let encrypted = ciphertext.subrange(0, n - h);
                let mac = ciphertext.subrange(n - h, n);
                match self.spec_derive_key(key, spec_usage_constant(usage, 0xaa)) {
                    Err(e) => Err(e),
                    Ok(ek) => match self.spec_decrypt_data(ek, encrypted) {
                        Err(e) => Err(e),
                        Ok(plain) => if plain.len() < 16 {
                            Err(Error::PlaintextTooShort { minimum: 16, actual: plain.len() as usize })
                        } else {
                            match self.spec_integrity_hash(key, usage, encrypted) {
                                Err(e) => Err(e),
                                Ok(expected) => if expected != mac {
                                    Err(Error::IntegrityCheckFailed)
                                } else {
                                    Ok(plain.subrange(16, plain.len() as int))
                                },
                            }
                        },
                    },
                }
            },
        }
    }

    /// Return the AES-SHA2 encryption type for a Kerberos etype id.
    pub fn from_etype_id(etype_id: i32) -> (r: Option<Self>)
        ensures
            r == (if etype_id == 19 {
                Some(AesSha2Etype::Aes128)
            } else if etype_id == 20 {
                Some(AesSha2Etype::Aes256)
            } else {
                None
            }),
    {
        match etype_id {
            19 => Some(AesSha2Etype::Aes128),
            20 => Some(AesSha2Etype::Aes256),
            _ => None,
        }
    }

    /// Kerberos encryption type ID.
    pub fn etype_id(self) -> (r: i32)
        ensures
            r == (match self {
                AesSha2Etype::Aes128 => 19i32,
                AesSha2Etype::Aes256 => 20i32,
            }),
    {
        match self {
            AesSha2Etype::Aes128 => 19,
            AesSha2Etype::Aes256 => 20,
        }
    }

    /// Kerberos checksum type ID.
    pub fn checksum_type_id(self) -> (r: i32)
        ensures
            r == (match self {
                AesSha2Etype::Aes128 => 19i32,
                AesSha2Etype::Aes256 => 20i32,
            }),
    {
        match self {
            AesSha2Etype::Aes128 => 19,
            AesSha2Etype::Aes256 => 20,
        }
    }

    /// RFC8009 encryption type name used when building saltp.
    pub fn ename(self) -> (r: &'static str)
        ensures
            r@ == self.spec_ename(),
    {
        match self {
            AesSha2Etype::Aes128 => {
                let s = "aes128-cts-hmac-sha256-128";
                proof {
                    reveal_strlit("aes128-cts-hmac-sha256-128");
                }
                assert(s@ =~= self.spec_ename());
                s
            },
            AesSha2Etype::Aes256 => {
                let s = "aes256-cts-hmac-sha384-192";
                proof {
                    reveal_strlit("aes256-cts-hmac-sha384-192");
                }
                assert(s@ =~= self.spec_ename());
                s
            },
        }
    }

    /// Protocol base key size in bytes.
    pub fn key_len(self) -> (r: usize)
        ensures
            r == self.spec_key_len(),
    {
        match self {
            AesSha2Etype::Aes128 => 16,
            AesSha2Etype::Aes256 => 32,
        }
    }

    /// Confounder size in bytes.
    pub fn confounder_len(self) -> (r: usize)
        ensures
            r == 16,
    {
        16
    }

    /// Truncated HMAC size in bytes.
    pub fn hmac_len(self) -> (r: usize)
        ensures
            r == self.spec_hmac_len(),
    {
        match self {
            AesSha2Etype::Aes128 => 16,
            AesSha2Etype::Aes256 => 24,
        }
    }

    /// Default RFC8009 string-to-key parameters, encoded as big-endian hex:
    /// 32768 iterations.
    pub fn default_s2kparams(self) -> (r: &'static str)
        ensures
            r@ == seq!['0', '0', '0', '0', '8', '0', '0', '0'],
    {
        let s = "00008000";
        proof {
            reveal_strlit("00008000");
        }
        assert(s@ =~= seq!['0', '0', '0', '0', '8', '0', '0', '0']);
        s
    }

    /// Return the RFC8009 saltp value for this encryption type.
    pub fn saltp(self, salt: &[u8]) -> (r: Vec<u8>)
        ensures
            r@ == self.spec_saltp(salt@),
    {
        let name = self.ename();
        let mut out = copy_bytes(name.as_bytes());
        out.push(0u8);
        extend_bytes(&mut out, salt);
        out
    }

    /// Derive the PBKDF2 intermediate key for RFC8009 string-to-key.
    pub fn string_to_pbkdf2(self, secret: &[u8], salt: &[u8], iterations: u32) -> (r: Vec<u8>)
        ensures
            r@ == self.spec_string_to_pbkdf2(secret@, salt@, iterations),
    {
        match self {
            AesSha2Etype::Aes128 => pbkdf2_hmac_sha256(secret, salt, iterations, 16),
            AesSha2Etype::Aes256 => pbkdf2_hmac_sha384(secret, salt, iterations, 32),
        }
    }

    /// Derive an AES protocol key from a password and salt.
    ///
    /// RFC8009 prepends the encryption type name and a NUL byte to the
    /// supplied salt before PBKDF2.
    pub fn string_to_key(self, secret: &[u8], salt: &[u8], s2kparams: &str) -> (r: Result<
        Vec<u8>,
        Error,
    >)
        ensures
            spec_bytes_result(r) == self.spec_string_to_key(secret@, salt@, s2kparams.spec_bytes()),
    {
        let iterations = match s2kparams_to_iterations(s2kparams) {
            Ok(n) => n,
            Err(e) => return Err(e),
        };
        let saltp = self.saltp(salt);
        let tkey = self.string_to_pbkdf2(secret, saltp.as_slice(), iterations);
        let constant = kerberos_constant();
        self.derive_key(tkey.as_slice(), constant.as_slice())
    }

    fn hash_len(self) -> (r: usize)
        ensures
            r == self.spec_hash_len(),
    {
        match self {
            AesSha2Etype::Aes128 => 32,
            AesSha2Etype::Aes256 => 48,
        }
    }

    fn hmac(self, key: &[u8], data: &[u8]) -> (r: Vec<u8>)
        ensures
            r@ == self.spec_hmac(key@, data@),
            r@.len() == self.spec_hash_len(),
    {
        match self {
            AesSha2Etype::Aes128 => hmac_sha256_tag(key, data),
            AesSha2Etype::Aes256 => hmac_sha384_tag(key, data),
        }
    }

    fn truncated_hmac(self, key: &[u8], data: &[u8]) -> (r: Vec<u8>)
        ensures
            r@ == self.spec_truncated_hmac(key@, data@),
            self.spec_hmac(key@, data@).len() == self.spec_hash_len(),
    {
        let full = self.hmac(key, data);
        copy_bytes(&full.as_slice()[0..self.hmac_len()])
    }

    fn derive_key_bits(self, label: &[u8]) -> (r: usize)
        ensures
            r == self.spec_derive_key_bits(label@),
    {
        match self {
            AesSha2Etype::Aes128 => 128,
            AesSha2Etype::Aes256 => {
                let constant = kerberos_constant();
                if bytes_eq(label, constant.as_slice()) {
                    256
                } else if label.len() > 0 && label[label.len() - 1] == 0xaa {
                    256
                } else {
                    192
                }
            },
        }
    }

    fn kdf_hmac_sha2(self, protocol_key: &[u8], label: &[u8], context: &[u8], output_bits: usize) -> (r:
        Vec<u8>)
        requires
            output_bits <= self.spec_hash_len() * 8,
            spec_len_fits(label@.len()),
            spec_len_fits(context@.len()),
        ensures
            r@ == self.spec_kdf(protocol_key@, label@, context@, output_bits as nat),
    {
        let mut input: Vec<u8> = Vec::new();
        push_u32(&mut input, 1, Endian::Big);
        extend_bytes(&mut input, label);
        input.push(0u8);
        extend_bytes(&mut input, context);
        push_u32(&mut input, output_bits as u32, Endian::Big);
        let output = self.hmac(protocol_key, input.as_slice());
        proof {
            assert(input@ =~= spec_u32_bytes(1, Endian::Big) + label@ + seq![0u8] + context@
                + spec_u32_bytes(output_bits as u32, Endian::Big));
        }
        copy_bytes(&output.as_slice()[0..output_bits / 8])
    }

    fn integrity_hash(self, protocol_key: &[u8], usage: u32, encrypted: &[u8]) -> (r: Result<
        Vec<u8>,
        Error,
    >)
        requires
            spec_len_fits(encrypted@.len() + 16),
        ensures
            spec_bytes_result(r) == self.spec_integrity_hash(protocol_key@, usage, encrypted@),
            r is Ok ==> (self.spec_derive_key(protocol_key@, spec_usage_constant(usage, 0x55)) matches Ok(
                ik,
            ) && self.spec_hmac(ik, spec_zeros(16) + encrypted@).len() == self.spec_hash_len()),
    {
        let ic = usage_constant(usage, 0x55);
        let integrity_key = match self.derive_key(protocol_key, ic.as_slice()) {
            Ok(k) => k,
            Err(e) => return Err(e),
        };
        let mut data = zeros(16);
        extend_bytes(&mut data, encrypted);
        let mac = self.truncated_hmac(integrity_key.as_slice(), data.as_slice());
        Ok(mac)
    }

    /// Derive a usage-specific key from a protocol key.
    pub fn derive_key(self, protocol_key: &[u8], label: &[u8]) -> (r: Result<Vec<u8>, Error>)
        requires
            spec_len_fits(label@.len()),
        ensures
            spec_bytes_result(r) == self.spec_derive_key(protocol_key@, label@),
    {
        match check_key(protocol_key, self.key_len()) {
            Err(e) => return Err(e),
            Ok(_) => {},
        }
        if label.len() == 0 {
            return Err(Error::EmptyUsage);
        }
        let empty: Vec<u8> = Vec::new();
        let bits = self.derive_key_bits(label);
        Ok(self.kdf_hmac_sha2(protocol_key, label, empty.as_slice(), bits))
    }

    /// RFC8009 PRF derivation.
    pub fn derive_random(self, protocol_key: &[u8], usage: &[u8]) -> (r: Result<Vec<u8>, Error>)
        requires
            spec_len_fits(usage@.len()),
        ensures
            spec_bytes_result(r) == self.spec_derive_random(protocol_key@, usage@),
    {
        match check_key(protocol_key, self.key_len()) {
            Err(e) => return Err(e),
            Ok(_) => {},
        }
        if usage.len() == 0 {
            return Err(Error::EmptyUsage);
        }
        let prf = vec![0x70u8, 0x72u8, 0x66u8];
        proof {
            assert(prf@ =~= seq![0x70u8, 0x72u8, 0x66u8]);
        }
        Ok(self.kdf_hmac_sha2(protocol_key, prf.as_slice(), usage, self.hash_len() * 8))
    }

    /// Calculate the keyed checksum for message bytes and a Kerberos key usage.
    pub fn checksum(self, protocol_key: &[u8], data: &[u8], usage: u32) -> (r: Result<
        Vec<u8>,
        Error,
    >)
        ensures
            spec_bytes_result(r) == self.spec_checksum(protocol_key@, data@, usage),
    {
        let constant = usage_constant(usage, 0x99);
        let key = match self.derive_key(protocol_key, constant.as_slice()) {
            Ok(k) => k,
            Err(e) => return Err(e),
        };
        Ok(self.truncated_hmac(key.as_slice(), data))
    }

    /// Verify a keyed checksum.
    pub fn verify_checksum(self, protocol_key: &[u8], data: &[u8], checksum: &[u8], usage: u32) -> (r:
        bool)
        ensures
            r == (self.spec_checksum(protocol_key@, data@, usage) == Ok::<Seq<u8>, Error>(
                checksum@,
            )),
    {
        match self.checksum(protocol_key, data, usage) {
            Ok(expected) => constant_time_eq(expected.as_slice(), checksum),
            Err(_) => false,
        }
    }

    /// Encrypt raw bytes with RFC8009 AES-CTS and a zero initial IV.
    ///
    /// The key is the derived encryption key, not the protocol base key.
    pub fn encrypt_data(self, key: &[u8], plaintext: &[u8]) -> (r: Result<(Vec<u8>, Vec<u8>), Error>)
        requires
            spec_len_fits(plaintext@.len()),
        ensures
            spec_pair_result(r) == self.spec_encrypt_data(key@, plaintext@),
            r matches Ok((iv, ct)) ==> ct@.len() == if plaintext@.len() <= 16 {
                16
            } else {
                plaintext@.len()
            },
            r is Ok ==> spec_block_cipher_inverts(BlockCipher::Aes, key@),
    {
        match check_key(key, self.key_len()) {
            Err(e) => return Err(e),
            Ok(_) => {},
        }
        aes_cts_encrypt(key, plaintext)
    }

    /// Decrypt raw bytes with RFC8009 AES-CTS and a zero initial IV.
    pub fn decrypt_data(self, key: &[u8], ciphertext: &[u8]) -> (r: Result<Vec<u8>, Error>)
        requires
            spec_len_fits(ciphertext@.len()),
        ensures
            spec_bytes_result(r) == self.spec_decrypt_data(key@, ciphertext@),
    {
        match check_key(key, self.key_len()) {
            Err(e) => return Err(e),
            Ok(_) => {},
        }
        aes_cts_decrypt(key, ciphertext)
    }

    /// Encrypt a Kerberos message with an explicit confounder.
    ///
    /// RFC8009 calculates integrity over a zero IV followed by the AES
    /// output, rather than over confounder-plus-plaintext as RFC3962 does.
    pub fn encrypt_message_with_confounder(
        self,
        protocol_key: &[u8],
        message: &[u8],
        usage: u32,
        confounder: &[u8],
    ) -> (r: Result<Vec<u8>, Error>)
        requires
            spec_len_fits(message@.len() + 32),
        ensures
            spec_bytes_result(r) == self.spec_encrypt_message(
                protocol_key@,
                message@,
                usage,
                confounder@,
            ),
            r is Ok ==> self.spec_message_keys_behave(protocol_key@, message@, usage, confounder@),
            r matches Ok(ct) ==> self.spec_decrypt_message(protocol_key@, ct@, usage) == Ok::<
                Seq<u8>,
                Error,
            >(message@),
    {
        match check_key(protocol_key, self.key_len()) {
            Err(e) => return Err(e),
            Ok(_) => {},
        }
        if confounder.len() != 16 {
            return Err(Error::InvalidConfounderLength { expected: 16, actual: confounder.len() });
        }
        let plain = concat(confounder, message);
        let ec = usage_constant(usage, 0xaa);
        let encryption_key = match self.derive_key(protocol_key, ec.as_slice()) {
            Ok(k) => k,
            Err(e) => return Err(e),
        };
        let mut encrypted = match self.encrypt_data(encryption_key.as_slice(), plain.as_slice()) {
            Ok((_, ct)) => ct,
            Err(e) => return Err(e),
        };
        let mac = match self.integrity_hash(protocol_key, usage, encrypted.as_slice()) {
            Ok(m) => m,
            Err(e) => return Err(e),
        };
        extend_bytes(&mut encrypted, mac.as_slice());
        proof {
            self.lemma_message_roundtrip(protocol_key@, message@, usage, confounder@);
        }
        Ok(encrypted)
    }

    /// Decrypt a Kerberos message and verify its RFC8009 integrity hash.
    pub fn decrypt_message(self, protocol_key: &[u8], ciphertext: &[u8], usage: u32) -> (r: Result<
        Vec<u8>,
        Error,
    >)
        requires
            spec_len_fits(ciphertext@.len() + 16),
        ensures
            spec_bytes_result(r) == self.spec_decrypt_message(protocol_key@, ciphertext@, usage),
    {
        match check_key(protocol_key, self.key_len()) {
            Err(e) => return Err(e),
            Ok(_) => {},
        }
        let h = self.hmac_len();
        let n = ciphertext.len();
        if n < h + 16 {
            return Err(Error::CiphertextTooShort { minimum: h + 16, actual: n });
        }
        let encrypted = &ciphertext[0..n - h];
        let mac = &ciphertext[n - h..n];
        let ec = usage_constant(usage, 0xaa);
        let encryption_key = match self.derive_key(protocol_key, ec.as_slice()) {
            Ok(k) => k,
            Err(e) => return Err(e),
        };
        let plain = match self.decrypt_data(encryption_key.as_slice(), encrypted) {
            Ok(p) => p,
            Err(e) => return Err(e),
        };
        if plain.len() < 16 {
            return Err(Error::PlaintextTooShort { minimum: 16, actual: plain.len() });
        }
        let expected = match self.integrity_hash(protocol_key, usage, encrypted) {
            Ok(m) => m,
            Err(e) => return Err(e),
        };
        if !constant_time_eq(expected.as_slice(), mac) {
            return Err(Error::IntegrityCheckFailed);
        }
        Ok(copy_bytes(&plain.as_slice()[16..plain.len()]))
    }
}

// ---------------------------------------------------------------------------
// RFC3961 DES3-CBC-SHA1-KD

/// Kerberos RFC3961 DES3-CBC-SHA1-KD encryption type.
#[derive(Clone, Copy, Debug, Eq, PartialEq)]
pub struct Des3CbcSha1KdEtype;

impl Des3CbcSha1KdEtype {
    /// Encryption of raw bytes: the key is checked, then zero-padded DES3-CBC.
    pub open spec fn spec_encrypt_data(self, key: Seq<u8>, plain: Seq<u8>) -> Result<
        (Seq<u8>, Seq<u8>),
        Error,
    > {
        match spec_check_key(key, 24) {
            Err(e) => Err(e),
            Ok(_) => spec_des3_cbc_encrypt(key, plain),
        }
    }

    /// Decryption of raw bytes: the key is checked, then DES3-CBC.
    pub open spec fn spec_decrypt_data(self, key: Seq<u8>, cipher: Seq<u8>) -> Result<
        Seq<u8>,
        Error,
    > {
        match spec_check_key(key, 24) {
            Err(e) => Err(e),
            Ok(_) => spec_des3_cbc_decrypt(key, cipher),
        }
    }

    /// RFC3961 DR: the usage n-folded to one block, encrypted, and the
    /// encryption stream cut to 21 bytes.
    pub open spec fn spec_derive_random(self, key: Seq<u8>, usage: Seq<u8>) -> Result<
        Seq<u8>,
        Error,
    > {
        match spec_check_key(key, 24) {
            Err(e) => Err(e),
            Ok(_) => if usage.len() == 0 {
                Err(Error::EmptyUsage)
            } else {
                match spec_nfold(usage, 64) {
                    Err(e) => Err(e),
                    Ok(folded) => match self.spec_encrypt_data(key, folded) {
                        Err(e) => Err(e),
                        Ok((_, block)) => Ok(spec_dr_stream(BlockCipher::Tdes, key, block, 21)),
                    },
                }
            },
        }
    }

    /// Usage key derivation: DR, then random-to-key.
    pub open spec fn spec_derive_key(self, key: Seq<u8>, usage: Seq<u8>) -> Result<Seq<u8>, Error> {
        match self.spec_derive_random(key, usage) {
            Err(e) => Err(e),
            Ok(random) => spec_des3_random_to_key(random),
        }
    }

    /// The keyed checksum: HMAC-SHA1 under the usage's checksum key.
    pub open spec fn spec_checksum(self, key: Seq<u8>, data: Seq<u8>, usage: u32) -> Result<
        Seq<u8>,
        Error,
    > {
        match self.spec_derive_key(key, spec_usage_constant(usage, 0x99)) {
            Err(e) => Err(e),
            Ok(k) => Ok(hmac_sha1(k, data)),
        }
    }

    /// RFC3961 DES3 string-to-key: empty parameters only; password and salt
    /// n-folded to 168 bits, made a key, and derived with `kerberos`.
    pub open spec fn spec_string_to_key(self, secret: Seq<u8>, salt: Seq<u8>, s2kparams: Seq<u8>) -> Result<
        Seq<u8>,
        Error,
    > {
        if s2kparams.len() != 0 {
            Err(Error::NonEmptyDes3S2kParams)
        } else {
            match spec_nfold(secret + salt, 168) {
                Err(e) => Err(e),
                Ok(folded) => match spec_des3_random_to_key(folded) {
                    Err(e) => Err(e),
                    Ok(tkey) => self.spec_derive_key(tkey, spec_kerberos_constant()),
                },
            }
        }
    }

    /// An encrypted message: DES3-CBC of the zero-padded confounder and
    /// message, then HMAC-SHA1 of those padded bytes.
    pub open spec fn spec_encrypt_message(
        self,
        key: Seq<u8>,
        message: Seq<u8>,
        usage: u32,
        confounder: Seq<u8>,
    ) -> Result<Seq<u8>, Error> {
        match spec_check_key(key, 24) {
            Err(e) => Err(e),
            Ok(_) => if confounder.len() != 8 {
                Err(Error::InvalidConfounderLength { expected: 8, actual: confounder.len() as usize })
            } else {
                let plain = spec_zero_pad(confounder + message, 8);
                match self.spec_derive_key(key, spec_usage_constant(usage, 0xaa)) {
                    Err(e) => Err(e),
                    Ok(ek) => match self.spec_encrypt_data(ek, plain) {
                        Err(e) => Err(e),
                        Ok((_, encrypted)) => match self.spec_derive_key(
                            key,
                            spec_usage_constant(usage, 0x55),
                        ) {
                            Err(e) => Err(e),
                            Ok(ik) => Ok(encrypted + hmac_sha1(ik, plain)),
                        },
                    },
                }
            },
        }
    }

    /// A decrypted message: the trailing 20-byte hash is split off, the rest
    /// decrypted, the hash checked, and the confounder dropped; zero padding
    /// stays.
    pub open spec fn spec_decrypt_message(self, key: Seq<u8>, ciphertext: Seq<u8>, usage: u32) -> Result<
        Seq<u8>,
        Error,
    > {
        match spec_check_key(key, 24) {
            Err(e) => Err(e),
            Ok(_) => if ciphertext.len() < 28 {
                Err(Error::CiphertextTooShort { minimum: 28, actual: ciphertext.len() as usize })
            } else {
                let n = ciphertext.len() as int;
                let encrypted = ciphertext.subrange(0, n - 20);
                let mac = ciphertext.subrange(n - 20, n);
                match self.spec_derive_key(key, spec_usage_constant(usage, 0xaa)) {
                    Err(e) => Err(e),
                    Ok(ek) => match self.spec_decrypt_data(ek, encrypted) {
                        Err(e) => Err(e),
                        Ok(plain) => if plain.len() < 8 {
                            Err(Error::PlaintextTooShort { minimum: 8, actual: plain.len() as usize })
                        } else {
                            match self.spec_derive_key(key, spec_usage_constant(usage, 0x55)) {
                                Err(e) => Err(e),
                                Ok(ik) => if hmac_sha1(ik, plain) != mac {
                                    Err(Error::IntegrityCheckFailed)
                                } else {
                                    Ok(plain.subrange(8, plain.len() as int))
                                },
                            }
                        },
                    },
                }
            },
        }
    }

    /// Return the DES3 encryption type for a Kerberos etype id.
    pub fn from_etype_id(etype_id: i32) -> (r: Option<Self>)
        ensures
            r == (if etype_id == 16 {
                Some(Des3CbcSha1KdEtype)
            } else {
                None
            }),
    {
        if etype_id == 16 {
            Some(Des3CbcSha1KdEtype)
        } else {
            None
        }
    }

    /// Return the DES3 encryption type for a Kerberos checksum type id.
    pub fn from_checksum_type_id(checksum_type_id: i32) -> (r: Option<Self>)
        ensures
            r == (if checksum_type_id == 12 {
                Some(Des3CbcSha1KdEtype)
            } else {
                None
            }),
    {
        if checksum_type_id == 12 {
            Some(Des3CbcSha1KdEtype)
        } else {
            None
        }
    }

    /// Kerberos encryption type ID.
    pub fn etype_id(self) -> (r: i32)
        ensures
            r == 16,
    {
        16
    }

    /// Kerberos checksum type ID.
    pub fn checksum_type_id(self) -> (r: i32)
        ensures
            r == 12,
    {
        12
    }

    /// Protocol key size in bytes.
    pub fn key_len(self) -> (r: usize)
        ensures
            r == 24,
    {
        24
    }

    /// Confounder size in bytes.
    pub fn confounder_len(self) -> (r: usize)
        ensures
            r == 8,
    {
        8
    }

    /// HMAC-SHA1 size in bytes.
    pub fn hmac_len(self) -> (r: usize)
        ensures
            r == 20,
    {
        20
    }

    /// DES3 string-to-key parameters must be empty.
    pub fn default_s2kparams(self) -> (r: &'static str)
        ensures
            r@ == Seq::<char>::empty(),
    {
        let s = "";
        proof {
            reveal_strlit("");
        }
        s
    }

    /// Derive a DES3 protocol key from a password and salt.
    pub fn string_to_key(self, secret: &[u8], salt: &[u8], s2kparams: &str) -> (r: Result<
        Vec<u8>,
        Error,
    >)
        requires
            spec_len_fits(secret@.len() + salt@.len()),
            spec_nfold_fits(secret@ + salt@, 168),
        ensures
            spec_bytes_result(r) == self.spec_string_to_key(secret@, salt@, s2kparams.spec_bytes()),
    {
        if s2kparams.as_bytes().len() != 0 {
            return Err(Error::NonEmptyDes3S2kParams);
        }
        let input = concat(secret, salt);
        let folded = match nfold(input.as_slice(), 168) {
            Ok(f) => f,
            Err(e) => return Err(e),
        };
        let tkey = match self.random_to_key(folded.as_slice()) {
            Ok(k) => k,
            Err(e) => return Err(e),
        };
        let constant = kerberos_constant();
        self.derive_key(tkey.as_slice(), constant.as_slice())
    }

    /// Convert 21 seed bytes into a DES3 key with DES parity and weak-key
    /// fixups.
    pub fn random_to_key(self, bytes: &[u8]) -> (r: Result<Vec<u8>, Error>)
        ensures
            spec_bytes_result(r) == spec_des3_random_to_key(bytes@),
    {
        des3_random_to_key(bytes)
    }

    /// Derive a usage-specific key from a protocol key.
    pub fn derive_key(self, protocol_key: &[u8], usage: &[u8]) -> (r: Result<Vec<u8>, Error>)
        requires
            spec_nfold_fits(usage@, 64),
        ensures
            spec_bytes_result(r) == self.spec_derive_key(protocol_key@, usage@),
    {
        let random = match self.derive_random(protocol_key, usage) {
            Ok(r) => r,
            Err(e) => return Err(e),
        };
        self.random_to_key(random.as_slice())
    }

    /// RFC3961 DR function for DES3.
    pub fn derive_random(self, protocol_key: &[u8], usage: &[u8]) -> (r: Result<Vec<u8>, Error>)
        requires
            spec_nfold_fits(usage@, 64),
        ensures
            spec_bytes_result(r) == self.spec_derive_random(protocol_key@, usage@),
    {
        match check_key(protocol_key, 24) {
            Err(e) => return Err(e),
            Ok(_) => {},
        }
        if usage.len() == 0 {
            return Err(Error::EmptyUsage);
        }
        let folded = match nfold(usage, 64) {
            Ok(f) => f,
            Err(e) => return Err(e),
        };
        let block = match self.encrypt_data(protocol_key, folded.as_slice()) {
            Ok((_, b)) => b,
            Err(e) => return Err(e),
        };
        Ok(dr_stream(BlockCipher::Tdes, protocol_key, block, 21))
    }

    /// Calculate the keyed checksum for message bytes and a Kerberos key usage.
    pub fn checksum(self, protocol_key: &[u8], data: &[u8], usage: u32) -> (r: Result<
        Vec<u8>,
        Error,
    >)
        ensures
            spec_bytes_result(r) == self.spec_checksum(protocol_key@, data@, usage),
    {
        let constant = usage_constant(usage, 0x99);
        let key = match self.derive_key(protocol_key, constant.as_slice()) {
            Ok(k) => k,
            Err(e) => return Err(e),
        };
        Ok(hmac_sha1_tag(key.as_slice(), data))
    }

    /// Verify a keyed checksum.
    pub fn verify_checksum(self, protocol_key: &[u8], data: &[u8], checksum: &[u8], usage: u32) -> (r:
        bool)
        ensures
            r == (self.spec_checksum(protocol_key@, data@, usage) == Ok::<Seq<u8>, Error>(
                checksum@,
            )),
    {
        match self.checksum(protocol_key, data, usage) {
            Ok(expected) => constant_time_eq(expected.as_slice(), checksum),
            Err(_) => false,
        }
    }

    /// Encrypt raw bytes with DES3-CBC and a zero initial IV.
    ///
    /// Returns `(next_iv, ciphertext)`.
    pub fn encrypt_data(self, key: &[u8], plaintext: &[u8]) -> (r: Result<(Vec<u8>, Vec<u8>), Error>)
        requires
            spec_len_fits(plaintext@.len()),
        ensures
            spec_pair_result(r) == self.spec_encrypt_data(key@, plaintext@),
            r matches Ok((iv, ct)) ==> ct@.len() >= plaintext@.len() && (plaintext@.len() % 8 == 0
                ==> ct@.len() == plaintext@.len()),
            r is Ok ==> spec_block_cipher_inverts(BlockCipher::Tdes, key@),
    {
        match check_key(key, 24) {
            Err(e) => return Err(e),
            Ok(_) => {},
        }
        des3_cbc_encrypt(key, plaintext)
    }

    /// Decrypt raw bytes with DES3-CBC and a zero initial IV.
    pub fn decrypt_data(self, key: &[u8], ciphertext: &[u8]) -> (r: Result<Vec<u8>, Error>)
        ensures
            spec_bytes_result(r) == self.spec_decrypt_data(key@, ciphertext@),
    {
        match check_key(key, 24) {
            Err(e) => return Err(e),
            Ok(_) => {},
        }
        des3_cbc_decrypt(key, ciphertext)
    }

    /// Encrypt a Kerberos message with an explicit confounder.
    ///
    /// The returned bytes are zero-padded DES3-CBC ciphertext plus the
    /// RFC3961 HMAC-SHA1 integrity hash over the padded
    /// confounder-plus-message bytes.
    pub fn encrypt_message_with_confounder(
        self,
        protocol_key: &[u8],
        message: &[u8],
        usage: u32,
        confounder: &[u8],
    ) -> (r: Result<Vec<u8>, Error>)
        requires
            spec_len_fits(message@.len() + 16),
        ensures
            spec_bytes_result(r) == self.spec_encrypt_message(
                protocol_key@,
                message@,
                usage,
                confounder@,
            ),
            r is Ok ==> self.spec_message_keys_behave(protocol_key@, message@, usage, confounder@),
            r matches Ok(ct) ==> self.spec_decrypt_message(protocol_key@, ct@, usage) == Ok::<
                Seq<u8>,
                Error,
            >(
                spec_zero_pad(confounder@ + message@, 8).subrange(
                    8,
                    spec_zero_pad(confounder@ + message@, 8).len() as int,
                ),
            ),
    {
        match check_key(protocol_key, 24) {
            Err(e) => return Err(e),
            Ok(_) => {},
        }
        if confounder.len() != 8 {
            return Err(Error::InvalidConfounderLength { expected: 8, actual: confounder.len() });
        }
        let mut plain = concat(confounder, message);
        zero_pad(&mut plain, 8);
        let ec = usage_constant(usage, 0xaa);
        let encryption_key = match self.derive_key(protocol_key, ec.as_slice()) {
            Ok(k) => k,
            Err(e) => return Err(e),
        };
        let mut encrypted = match self.encrypt_data(encryption_key.as_slice(), plain.as_slice()) {
            Ok((_, ct)) => ct,
            Err(e) => return Err(e),
        };
        let ic = usage_constant(usage, 0x55);
        let integrity_key = match self.derive_key(protocol_key, ic.as_slice()) {
            Ok(k) => k,
            Err(e) => return Err(e),
        };
        let mac = hmac_sha1_tag(integrity_key.as_slice(), plain.as_slice());
        extend_bytes(&mut encrypted, mac.as_slice());
        proof {
            self.lemma_message_roundtrip(protocol_key@, message@, usage, confounder@);
        }
        Ok(encrypted)
    }

    /// Decrypt a Kerberos message and verify its RFC3961 integrity hash.
    ///
    /// This returns the decrypted message after the confounder and preserves
    /// any zero padding added before encryption.
    pub fn decrypt_message(self, protocol_key: &[u8], ciphertext: &[u8], usage: u32) -> (r: Result<
        Vec<u8>,
        Error,
    >)
        ensures
            spec_bytes_result(r) == self.spec_decrypt_message(protocol_key@, ciphertext@, usage),
    {
        match check_key(protocol_key, 24) {
            Err(e) => return Err(e),
            Ok(_) => {},
        }
        let n = ciphertext.len();
        if n < 28 {
            return Err(Error::CiphertextTooShort { minimum: 28, actual: n });
        }
        let encrypted = &ciphertext[0..n - 20];
        let mac = &ciphertext[n - 20..n];
        let ec = usage_constant(usage, 0xaa);
        let encryption_key = match self.derive_key(protocol_key, ec.as_slice()) {
            Ok(k) => k,
            Err(e) => return Err(e),
        };
        let plain = match self.decrypt_data(encryption_key.as_slice(), encrypted) {
            Ok(p) => p,
            Err(e) => return Err(e),
        };
        if plain.len() < 8 {
            return Err(Error::PlaintextTooShort { minimum: 8, actual: plain.len() });
        }
        let ic = usage_constant(usage, 0x55);
        let integrity_key = match self.derive_key(protocol_key, ic.as_slice()) {
            Ok(k) => k,
            Err(e) => return Err(e),
        };
        let expected = hmac_sha1_tag(integrity_key.as_slice(), plain.as_slice());
        if !constant_time_eq(expected.as_slice(), mac) {
            return Err(Error::IntegrityCheckFailed);
        }
        Ok(copy_bytes(&plain.as_slice()[8..plain.len()]))
    }
}

// ---------------------------------------------------------------------------
// RFC4757 RC4-HMAC

/// The UTF-16 code units of one character.
pub open spec fn spec_utf16_units(c: char) -> Seq<u16> {
    let v = c as u32;
    if v < 0x10000 {
        seq![v as u16]
    } else {
        let u = (v - 0x10000) as u32;
        seq![(0xd800u32 + (u >> 10u32)) as u16, (0xdc00u32 + (u & 0x3ffu32)) as u16]
    }
}

/// Text as UTF-16 code units, each stored little-endian.
pub open spec fn spec_utf16le(chars: Seq<char>) -> Seq<u8>
    decreases chars.len(),
{
    if chars.len() == 0 {
        Seq::empty()
    } else {
        let units = spec_utf16_units(chars.last());
        spec_utf16le(chars.drop_last()) + if units.len() == 1 {
            seq![units[0] as u8, (units[0] >> 8u16) as u8]
        } else {
            seq![
                units[0] as u8,
                (units[0] >> 8u16) as u8,
                units[1] as u8,
                (units[1] >> 8u16) as u8,
            ]
        }
    }
}

/// The ASCII bytes of `signaturekey` and a NUL.
pub open spec fn spec_signature_key_constant() -> Seq<u8> {
    seq![
        0x73u8, 0x69u8, 0x67u8, 0x6eu8, 0x61u8, 0x74u8, 0x75u8, 0x72u8, 0x65u8, 0x6bu8, 0x65u8,
        0x79u8, 0x00u8,
    ]
}

/// RFC4757 `KERB_CHECKSUM_HMAC_MD5`: HMAC-MD5, under the HMAC-MD5 of the
/// signature constant, of the MD5 of the usage's message type and the data.
pub open spec fn spec_kerb_checksum_hmac_md5(key: Seq<u8>, data: Seq<u8>, usage: u32) -> Seq<u8> {
    hmac_md5(
        hmac_md5(key, spec_signature_key_constant()),
        md5(spec_ms_msg_type_bytes(spec_ms_usage(usage), 4) + data),
    )
}

/// Calculate the RFC4757 `KERB_CHECKSUM_HMAC_MD5` checksum.
///
/// This checksum is used by RC4-HMAC and by Microsoft S4U PA-FOR-USER data.
/// Unlike [`Rc4HmacEtype::checksum`], this accepts any session key length,
/// because PA-FOR-USER signs with the TGT session key directly.
pub fn kerb_checksum_hmac_md5(protocol_key: &[u8], data: &[u8], usage: u32) -> (r: Vec<u8>)
    requires
        spec_len_fits(data@.len() + 4),
    ensures
        r@ == spec_kerb_checksum_hmac_md5(protocol_key@, data@, usage),
{
    let constant = vec![
        0x73u8, 0x69u8, 0x67u8, 0x6eu8, 0x61u8, 0x74u8, 0x75u8, 0x72u8, 0x65u8, 0x6bu8, 0x65u8,
        0x79u8, 0x00u8,
    ];
    assert(constant@ =~= spec_signature_key_constant());
    let signing_key = hmac_md5_tag(protocol_key, constant.as_slice());
    let msg_type = rc4_hmac_usage_to_ms_msg_type(usage);
    let md5_input = concat(msg_type.as_slice(), data);
    let digest = md5_digest(md5_input.as_slice());
    hmac_md5_tag(signing_key.as_slice(), digest.as_slice())
}

/// RC4 under `key` when RC4 accepts the key length (1 to 256 bytes).
pub open spec fn spec_rc4_hmac_crypt(key: Seq<u8>, input: Seq<u8>) -> Result<Seq<u8>, Error> {
    if 1 <= key.len() <= 256 {
        Ok(rc4(key, input))
    } else {
        Err(Error::InvalidKeyLength { expected: 16, actual: key.len() as usize })
    }
}

fn rc4_hmac_crypt(key: &[u8], input: &[u8]) -> (r: Result<Vec<u8>, Error>)
    ensures
        spec_bytes_result(r) == spec_rc4_hmac_crypt(key@, input@),
        r matches Ok(v) ==> v@.len() == input@.len() && rc4(key@, v@) == input@,
{
    match rc4_apply(key, input) {
        Some(out) => Ok(out),
        None => Err(Error::InvalidKeyLength { expected: 16, actual: key.len() }),
    }
}

fn utf16le(chars: &[char]) -> (r: Vec<u8>)
    ensures
        r@ == spec_utf16le(chars@),
{
    let mut out: Vec<u8> = Vec::new();
    let mut i: usize = 0;
    while i < chars.len()
        invariant
            i <= chars@.len(),
            out@ == spec_utf16le(chars@.subrange(0, i as int)),
        decreases chars@.len() - i,
    {
        let v = chars[i] as u32;
        let ghost before = out@;
        if v < 0x10000 {
            let unit = v as u16;
            out.push(unit as u8);
            out.push((unit >> 8) as u8);
        } else {
            let u = v - 0x10000;
            proof {
                assert(u >> 10u32 <= 0x3fffffu32) by (bit_vector);
                assert(u & 0x3ffu32 <= 0x3ffu32) by (bit_vector);
            }
            let high = (0xd800u32 + (u >> 10)) as u16;
            let low = (0xdc00u32 + (u & 0x3ff)) as u16;
            out.push(high as u8);
            out.push((high >> 8) as u8);
            out.push(low as u8);
            out.push((low >> 8) as u8);
        }
        i = i + 1;
        proof {
            assert(chars@.subrange(0, i as int).drop_last() =~= chars@.subrange(0, i - 1));
            assert(out@ =~= spec_utf16le(chars@.subrange(0, i as int)));
        }
    }
    assert(chars@.subrange(0, chars@.len() as int) =~= chars@);
    out
}

/// Kerberos RFC4757 RC4-HMAC encryption type.
#[derive(Clone, Copy, Debug, Eq, PartialEq)]
pub struct Rc4HmacEtype;

impl Rc4HmacEtype {
    /// RFC4757 string-to-key: the MD4 of the password's UTF-16LE form; the
    /// password must be UTF-8, and salt and parameters are ignored.
    pub open spec fn spec_string_to_key(self, secret: Seq<u8>) -> Result<Seq<u8>, Error> {
        if vstd::utf8::valid_utf8(secret) {
            Ok(md4(spec_utf16le(vstd::utf8::decode_utf8(secret))))
        } else {
            Err(Error::InvalidStringToKeySecret)
        }
    }

    /// Usage key derivation: HMAC-MD5 of the usage under the key.
    pub open spec fn spec_derive_key(self, key: Seq<u8>, usage: Seq<u8>) -> Result<Seq<u8>, Error> {
        match spec_check_key(key, 16) {
            Err(e) => Err(e),
            Ok(_) => if usage.len() == 0 {
                Err(Error::EmptyUsage)
            } else {
                Ok(hmac_md5(key, usage))
            },
        }
    }

    /// The keyed checksum: `KERB_CHECKSUM_HMAC_MD5` after the key check.
    pub open spec fn spec_checksum(self, key: Seq<u8>, data: Seq<u8>, usage: u32) -> Result<
        Seq<u8>,
        Error,
    > {
        match spec_check_key(key, 16) {
            Err(e) => Err(e),
            Ok(_) => Ok(spec_kerb_checksum_hmac_md5(key, data, usage)),
        }
    }

    /// RC4 of raw bytes after the key check.
    pub open spec fn spec_crypt_data(self, key: Seq<u8>, data: Seq<u8>) -> Result<Seq<u8>, Error> {
        match spec_check_key(key, 16) {
            Err(e) => Err(e),
            Ok(_) => spec_rc4_hmac_crypt(key, data),
        }
    }

    /// The usage key: HMAC-MD5 of the usage's message type.
    pub open spec fn spec_usage_key(self, key: Seq<u8>, usage: u32) -> Seq<u8> {
        hmac_md5(key, spec_ms_msg_type_bytes(spec_ms_usage(usage), 4))
    }

    /// An encrypted message: the HMAC-MD5 of confounder and message under
    /// the usage key, then RC4 of them under the HMAC-MD5 of that checksum.
    pub open spec fn spec_encrypt_message(
        self,
        key: Seq<u8>,
        message: Seq<u8>,
        usage: u32,
        confounder: Seq<u8>,
    ) -> Result<Seq<u8>, Error> {
        match spec_check_key(key, 16) {
            Err(e) => Err(e),
            Ok(_) => if confounder.len() != 8 {
                Err(Error::InvalidConfounderLength { expected: 8, actual: confounder.len() as usize })
            } else {
                let plain = confounder + message;
                let usage_key = self.spec_usage_key(key, usage);
                let checksum = hmac_md5(usage_key, plain);
                match spec_rc4_hmac_crypt(hmac_md5(usage_key, checksum), plain) {
                    Err(e) => Err(e),
                    Ok(encrypted) => Ok(checksum + encrypted),
                }
            },
        }
    }

    /// A decrypted message: the leading 16-byte checksum is split off, the
    /// rest decrypted, the checksum checked, and the confounder dropped.
    pub open spec fn spec_decrypt_message(self, key: Seq<u8>, ciphertext: Seq<u8>, usage: u32) -> Result<
        Seq<u8>,
        Error,
    > {
        match spec_check_key(key, 16) {
            Err(e) => Err(e),
            Ok(_) => if ciphertext.len() < 24 {
                Err(Error::CiphertextTooShort { minimum: 24, actual: ciphertext.len() as usize })
            } else {
                let checksum = ciphertext.subrange(0, 16);
                let encrypted = ciphertext.subrange(16, ciphertext.len() as int);
                let usage_key = self.spec_usage_key(key, usage);
                match spec_rc4_hmac_crypt(hmac_md5(usage_key, checksum), encrypted) {
                    Err(e) => Err(e),
                    Ok(plain) => if plain.len() < 8 {
                        Err(Error::PlaintextTooShort { minimum: 8, actual: plain.len() as usize })
                    } else if hmac_md5(usage_key, plain) != checksum {
                        Err(Error::IntegrityCheckFailed)
                    } else {
                        Ok(plain.subrange(8, plain.len() as int))
                    },
                }
            },
        }
    }

    /// Return the RC4-HMAC encryption type for a Kerberos etype id.
    pub fn from_etype_id(etype_id: i32) -> (r: Option<Self>)
        ensures
            r == (if etype_id == 23 {
                Some(Rc4HmacEtype)
            } else {
                None
            }),
    {
        if etype_id == 23 {
            Some(Rc4HmacEtype)
        } else {
            None
        }
    }

    /// Return the RC4-HMAC encryption type for a Kerberos checksum type id.
    pub fn from_checksum_type_id(checksum_type_id: i32) -> (r: Option<Self>)
        ensures
            r == (if checksum_type_id == -138 {
                Some(Rc4HmacEtype)
            } else {
                None
            }),
    {
        if checksum_type_id == -138 {
            Some(Rc4HmacEtype)
        } else {
            None
        }
    }

    /// Kerberos encryption type ID.
    pub fn etype_id(self) -> (r: i32)
        ensures
            r == 23,
    {
        23
    }

    /// Kerberos checksum type ID.
    pub fn checksum_type_id(self) -> (r: i32)
        ensures
            r == -138,
    {
        -138
    }

    /// Protocol key size in bytes.
    pub fn key_len(self) -> (r: usize)
        ensures
            r == 16,
    {
        16
    }

    /// Confounder size in bytes.
    pub fn confounder_len(self) -> (r: usize)
        ensures
            r == 8,
    {
        8
    }

    /// HMAC-MD5 size in bytes.
    pub fn hmac_len(self) -> (r: usize)
        ensures
            r == 16,
    {
        16
    }

    /// Default RFC4757 string-to-key parameters: none.
    pub fn default_s2kparams(self) -> (r: &'static str)
        ensures
            r@ == Seq::<char>::empty(),
    {
        let s = "";
        proof {
            reveal_strlit("");
        }
        s
    }

    /// Derive an RC4-HMAC protocol key from a password.
    ///
    /// RFC4757 ignores salt and string-to-key parameters and hashes the
    /// password's UTF-16LE form with MD4.
    pub fn string_to_key(self, secret: &[u8], _salt: &[u8], _s2kparams: &str) -> (r: Result<
        Vec<u8>,
        Error,
    >)
        ensures
            spec_bytes_result(r) == self.spec_string_to_key(secret@),
    {
        let password = match str_from_utf8(secret) {
            Some(p) => p,
            None => return Err(Error::InvalidStringToKeySecret),
        };
        let chars = str_chars(password);
        let units = utf16le(chars.as_slice());
        Ok(md4_digest(units.as_slice()))
    }

    /// Convert random bytes into an RC4-HMAC key.
    pub fn random_to_key(self, bytes: &[u8]) -> (r: Vec<u8>)
        ensures
            r@ == md4(bytes@),
    {
        md4_digest(bytes)
    }

    /// Derive a usage-specific key from a protocol key.
    pub fn derive_key(self, protocol_key: &[u8], usage: &[u8]) -> (r: Result<Vec<u8>, Error>)
        ensures
            spec_bytes_result(r) == self.spec_derive_key(protocol_key@, usage@),
    {
        match check_key(protocol_key, 16) {
            Err(e) => return Err(e),
            Ok(_) => {},
        }
        if usage.len() == 0 {
            return Err(Error::EmptyUsage);
        }
        Ok(hmac_md5_tag(protocol_key, usage))
    }

    /// Calculate the RFC4757 keyed checksum for message bytes and a key usage.
    pub fn checksum(self, protocol_key: &[u8], data: &[u8], usage: u32) -> (r: Result<
        Vec<u8>,
        Error,
    >)
        requires
            spec_len_fits(data@.len() + 4),
        ensures
            spec_bytes_result(r) == self.spec_checksum(protocol_key@, data@, usage),
    {
        match check_key(protocol_key, 16) {
            Err(e) => return Err(e),
            Ok(_) => {},
        }
        Ok(kerb_checksum_hmac_md5(protocol_key, data, usage))
    }

    /// Verify an RFC4757 keyed checksum.
    pub fn verify_checksum(self, protocol_key: &[u8], data: &[u8], checksum: &[u8], usage: u32) -> (r:
        bool)
        requires
            spec_len_fits(data@.len() + 4),
        ensures
            r == (self.spec_checksum(protocol_key@, data@, usage) == Ok::<Seq<u8>, Error>(
                checksum@,
            )),
    {
        match self.checksum(protocol_key, data, usage) {
            Ok(expected) => constant_time_eq(expected.as_slice(), checksum),
            Err(_) => false,
        }
    }

    /// Encrypt raw bytes with RC4.
    pub fn encrypt_data(self, key: &[u8], plaintext: &[u8]) -> (r: Result<Vec<u8>, Error>)
        ensures
            spec_bytes_result(r) == self.spec_crypt_data(key@, plaintext@),
    {
        match check_key(key, 16) {
            Err(e) => return Err(e),
            Ok(_) => {},
        }
        rc4_hmac_crypt(key, plaintext)
    }

    /// Decrypt raw bytes with RC4.
    pub fn decrypt_data(self, key: &[u8], ciphertext: &[u8]) -> (r: Result<Vec<u8>, Error>)
        ensures
            spec_bytes_result(r) == self.spec_crypt_data(key@, ciphertext@),
    {
        match check_key(key, 16) {
            Err(e) => return Err(e),
            Ok(_) => {},
        }
        rc4_hmac_crypt(key, ciphertext)
    }

    /// Encrypt a Kerberos message with an explicit confounder.
    ///
    /// The returned bytes are the 16-byte HMAC-MD5 checksum followed by the
    /// RC4 encrypted confounder-plus-message payload.
    pub fn encrypt_message_with_confounder(
        self,
        protocol_key: &[u8],
        message: &[u8],
        usage: u32,
        confounder: &[u8],
    ) -> (r: Result<Vec<u8>, Error>)
        requires
            spec_len_fits(message@.len() + 16),
        ensures
            spec_bytes_result(r) == self.spec_encrypt_message(
                protocol_key@,
                message@,
                usage,
                confounder@,
            ),
            r is Ok ==> self.spec_message_keys_behave(protocol_key@, message@, usage, confounder@),
            r matches Ok(ct) ==> self.spec_decrypt_message(protocol_key@, ct@, usage) == Ok::<
                Seq<u8>,
                Error,
            >(message@),
    {
        match check_key(protocol_key, 16) {
            Err(e) => return Err(e),
            Ok(_) => {},
        }
        if confounder.len() != 8 {
            return Err(Error::InvalidConfounderLength { expected: 8, actual: confounder.len() });
        }
        let plain = concat(confounder, message);
        let msg_type = rc4_hmac_usage_to_ms_msg_type(usage);
        let usage_key = hmac_md5_tag(protocol_key, msg_type.as_slice());
        let checksum = hmac_md5_tag(usage_key.as_slice(), plain.as_slice());
        let encryption_key = hmac_md5_tag(usage_key.as_slice(), checksum.as_slice());
        let encrypted = match rc4_hmac_crypt(encryption_key.as_slice(), plain.as_slice()) {
            Ok(e) => e,
            Err(e) => return Err(e),
        };
        let mut out = copy_bytes(checksum.as_slice());
        extend_bytes(&mut out, encrypted.as_slice());
        proof {
            self.lemma_message_roundtrip(protocol_key@, message@, usage, confounder@);
        }
        Ok(out)
    }

    /// Decrypt a Kerberos message and verify its RFC4757 integrity checksum.
    pub fn decrypt_message(self, protocol_key: &[u8], ciphertext: &[u8], usage: u32) -> (r: Result<
        Vec<u8>,
        Error,
    >)
        ensures
            spec_bytes_result(r) == self.spec_decrypt_message(protocol_key@, ciphertext@, usage),
    {
        match check_key(protocol_key, 16) {
            Err(e) => return Err(e),
            Ok(_) => {},
        }
        let n = ciphertext.len();
        if n < 24 {
            return Err(Error::CiphertextTooShort { minimum: 24, actual: n });
        }
        let checksum = &ciphertext[0..16];
        let encrypted = &ciphertext[16..n];
        let msg_type = rc4_hmac_usage_to_ms_msg_type(usage);
        let usage_key = hmac_md5_tag(protocol_key, msg_type.as_slice());
        let encryption_key = hmac_md5_tag(usage_key.as_slice(), checksum);
        let plain = match rc4_hmac_crypt(encryption_key.as_slice(), encrypted) {
            Ok(p) => p,
            Err(e) => return Err(e),
        };
        if plain.len() < 8 {
            return Err(Error::PlaintextTooShort { minimum: 8, actual: plain.len() });
        }
        let expected = hmac_md5_tag(usage_key.as_slice(), plain.as_slice());
        if !constant_time_eq(expected.as_slice(), checksum) {
            return Err(Error::IntegrityCheckFailed);
        }
        Ok(copy_bytes(&plain.as_slice()[8..plain.len()]))
    }
}

// ---------------------------------------------------------------------------
// All supported encryption types

/// Kerberos encryption type supported by this crate.
#[derive(Clone, Copy, Debug, Eq, PartialEq)]
pub enum KerberosEtype {
    /// RFC3962 AES-SHA1 etype.
    Sha1(AesSha1Etype),
    /// RFC8009 AES-SHA2 etype.
    Sha2(AesSha2Etype),
    /// RFC3961 DES3-CBC-SHA1-KD etype.
    Des3CbcSha1Kd(Des3CbcSha1KdEtype),
    /// RFC4757 RC4-HMAC etype.
    Rc4Hmac(Rc4HmacEtype),
}

/// The supported encryption type with a Kerberos etype id.
pub open spec fn spec_etype_from_id(etype_id: i32) -> Option<KerberosEtype> {
    if etype_id == 17 {
        Some(KerberosEtype::Sha1(AesSha1Etype::Aes128))
    } else if etype_id == 18 {
        Some(KerberosEtype::Sha1(AesSha1Etype::Aes256))
    } else if etype_id == 19 {
        Some(KerberosEtype::Sha2(AesSha2Etype::Aes128))
    } else if etype_id == 20 {
        Some(KerberosEtype::Sha2(AesSha2Etype::Aes256))
    } else if etype_id == 16 {
        Some(KerberosEtype::Des3CbcSha1Kd(Des3CbcSha1KdEtype))
    } else if etype_id == 23 {
        Some(KerberosEtype::Rc4Hmac(Rc4HmacEtype))
    } else {
        None
    }
}

/// The supported encryption type with a Kerberos checksum type id.
pub open spec fn spec_etype_from_checksum_id(checksum_type_id: i32) -> Option<KerberosEtype> {
    if checksum_type_id == 12 {
        Some(KerberosEtype::Des3CbcSha1Kd(Des3CbcSha1KdEtype))
    } else if checksum_type_id == 15 {
        Some(KerberosEtype::Sha1(AesSha1Etype::Aes128))
    } else if checksum_type_id == 16 {
        Some(KerberosEtype::Sha1(AesSha1Etype::Aes256))
    } else if checksum_type_id == 19 {
        Some(KerberosEtype::Sha2(AesSha2Etype::Aes128))
    } else if checksum_type_id == 20 {
        Some(KerberosEtype::Sha2(AesSha2Etype::Aes256))
    } else if checksum_type_id == -138 {
        Some(KerberosEtype::Rc4Hmac(Rc4HmacEtype))
    } else {
        None
    }
}

impl KerberosEtype {
    /// Kerberos encryption type ID.
    pub open spec fn spec_etype_id(self) -> i32 {
        match self {
            KerberosEtype::Sha1(AesSha1Etype::Aes128) => 17,
            KerberosEtype::Sha1(AesSha1Etype::Aes256) => 18,
            KerberosEtype::Sha2(AesSha2Etype::Aes128) => 19,
            KerberosEtype::Sha2(AesSha2Etype::Aes256) => 20,
            KerberosEtype::Des3CbcSha1Kd(_) => 16,
            KerberosEtype::Rc4Hmac(_) => 23,
        }
    }

    /// Kerberos checksum type ID.
    pub open spec fn spec_checksum_type_id(self) -> i32 {
        match self {
            KerberosEtype::Sha1(AesSha1Etype::Aes128) => 15,
            KerberosEtype::Sha1(AesSha1Etype::Aes256) => 16,
            KerberosEtype::Sha2(AesSha2Etype::Aes128) => 19,
            KerberosEtype::Sha2(AesSha2Etype::Aes256) => 20,
            KerberosEtype::Des3CbcSha1Kd(_) => 12,
            KerberosEtype::Rc4Hmac(_) => -138i32,
        }
    }

    /// Protocol base key size in bytes.
    pub open spec fn spec_key_len(self) -> nat {
        match self {
            KerberosEtype::Sha1(e) => e.spec_key_len(),
            KerberosEtype::Sha2(e) => e.spec_key_len(),
            KerberosEtype::Des3CbcSha1Kd(_) => 24,
            KerberosEtype::Rc4Hmac(_) => 16,
        }
    }

    /// Confounder size in bytes.
    pub open spec fn spec_confounder_len(self) -> nat {
        match self {
            KerberosEtype::Sha1(_) => 16,
            KerberosEtype::Sha2(_) => 16,
            KerberosEtype::Des3CbcSha1Kd(_) => 8,
            KerberosEtype::Rc4Hmac(_) => 8,
        }
    }

    /// Checksum size in bytes.
    pub open spec fn spec_hmac_len(self) -> nat {
        match self {
            KerberosEtype::Sha1(_) => 12,
            KerberosEtype::Sha2(e) => e.spec_hmac_len(),
            KerberosEtype::Des3CbcSha1Kd(_) => 20,
            KerberosEtype::Rc4Hmac(_) => 16,
        }
    }

    /// Default string-to-key parameters.
    pub open spec fn spec_default_s2kparams(self) -> Seq<char> {
        match self {
            KerberosEtype::Sha1(_) => seq!['0', '0', '0', '0', '1', '0', '0', '0'],
            KerberosEtype::Sha2(_) => seq!['0', '0', '0', '0', '8', '0', '0', '0'],
            KerberosEtype::Des3CbcSha1Kd(_) => Seq::empty(),
            KerberosEtype::Rc4Hmac(_) => Seq::empty(),
        }
    }

    /// String-to-key of the selected profile.
    pub open spec fn spec_string_to_key(self, secret: Seq<u8>, salt: Seq<u8>, s2kparams: Seq<u8>) -> Result<
        Seq<u8>,
        Error,
    > {
        match self {
            KerberosEtype::Sha1(e) => e.spec_string_to_key(secret, salt, s2kparams),
            KerberosEtype::Sha2(e) => e.spec_string_to_key(secret, salt, s2kparams),
            KerberosEtype::Des3CbcSha1Kd(e) => e.spec_string_to_key(secret, salt, s2kparams),
            KerberosEtype::Rc4Hmac(e) => e.spec_string_to_key(secret),
        }
    }

    /// Checksum of the selected profile.
    pub open spec fn spec_checksum(self, key: Seq<u8>, data: Seq<u8>, usage: u32) -> Result<
        Seq<u8>,
        Error,
    > {
        match self {
            KerberosEtype::Sha1(e) => e.spec_checksum(key, data, usage),
            KerberosEtype::Sha2(e) => e.spec_checksum(key, data, usage),
            KerberosEtype::Des3CbcSha1Kd(e) => e.spec_checksum(key, data, usage),
            KerberosEtype::Rc4Hmac(e) => e.spec_checksum(key, data, usage),
        }
    }

    /// Message encryption of the selected profile.
    pub open spec fn spec_encrypt_message(
        self,
        key: Seq<u8>,
        message: Seq<u8>,
        usage: u32,
        confounder: Seq<u8>,
    ) -> Result<Seq<u8>, Error> {
        match self {
            KerberosEtype::Sha1(e) => e.spec_encrypt_message(key, message, usage, confounder),
            KerberosEtype::Sha2(e) => e.spec_encrypt_message(key, message, usage, confounder),
            KerberosEtype::Des3CbcSha1Kd(e) => e.spec_encrypt_message(key, message, usage, confounder),
            KerberosEtype::Rc4Hmac(e) => e.spec_encrypt_message(key, message, usage, confounder),
        }
    }

    /// Message decryption of the selected profile.
    pub open spec fn spec_decrypt_message(self, key: Seq<u8>, ciphertext: Seq<u8>, usage: u32) -> Result<
        Seq<u8>,
        Error,
    > {
        match self {
            KerberosEtype::Sha1(e) => e.spec_decrypt_message(key, ciphertext, usage),
            KerberosEtype::Sha2(e) => e.spec_decrypt_message(key, ciphertext, usage),
            KerberosEtype::Des3CbcSha1Kd(e) => e.spec_decrypt_message(key, ciphertext, usage),
            KerberosEtype::Rc4Hmac(e) => e.spec_decrypt_message(key, ciphertext, usage),
        }
    }

    /// Whether string-to-key of the selected profile fits the machine: DES3
    /// n-folds password and salt together.
    pub open spec fn spec_string_to_key_fits(self, secret: Seq<u8>, salt: Seq<u8>) -> bool {
        self matches KerberosEtype::Des3CbcSha1Kd(_) ==> spec_len_fits(secret.len() + salt.len())
            && spec_nfold_fits(secret + salt, 168)
    }

    /// Return a supported encryption type for a Kerberos etype id.
    pub fn from_etype_id(etype_id: i32) -> (r: Option<Self>)
        ensures
            r == spec_etype_from_id(etype_id),
    {
        if let Some(e) = AesSha1Etype::from_etype_id(etype_id) {
            return Some(KerberosEtype::Sha1(e));
        }
        if let Some(e) = AesSha2Etype::from_etype_id(etype_id) {
            return Some(KerberosEtype::Sha2(e));
        }
        if let Some(e) = Des3CbcSha1KdEtype::from_etype_id(etype_id) {
            return Some(KerberosEtype::Des3CbcSha1Kd(e));
        }
        match Rc4HmacEtype::from_etype_id(etype_id) {
            Some(e) => Some(KerberosEtype::Rc4Hmac(e)),
            None => None,
        }
    }

    /// Return a supported encryption type for a Kerberos checksum type id.
    pub fn from_checksum_type_id(checksum_type_id: i32) -> (r: Option<Self>)
        ensures
            r == spec_etype_from_checksum_id(checksum_type_id),
    {
        match checksum_type_id {
            12 => Some(KerberosEtype::Des3CbcSha1Kd(Des3CbcSha1KdEtype)),
            15 => Some(KerberosEtype::Sha1(AesSha1Etype::Aes128)),
            16 => Some(KerberosEtype::Sha1(AesSha1Etype::Aes256)),
            19 => Some(KerberosEtype::Sha2(AesSha2Etype::Aes128)),
            20 => Some(KerberosEtype::Sha2(AesSha2Etype::Aes256)),
            _ => match Rc4HmacEtype::from_checksum_type_id(checksum_type_id) {
                Some(e) => Some(KerberosEtype::Rc4Hmac(e)),
                None => None,
            },
        }
    }

    /// Kerberos encryption type ID.
    pub fn etype_id(self) -> (r: i32)
        ensures
            r == self.spec_etype_id(),
    {
        match self {
            KerberosEtype::Sha1(e) => e.etype_id(),
            KerberosEtype::Sha2(e) => e.etype_id(),
            KerberosEtype::Des3CbcSha1Kd(e) => e.etype_id(),
            KerberosEtype::Rc4Hmac(e) => e.etype_id(),
        }
    }

    /// Kerberos checksum type ID.
    pub fn checksum_type_id(self) -> (r: i32)
        ensures
            r == self.spec_checksum_type_id(),
    {
        match self {
            KerberosEtype::Sha1(e) => e.checksum_type_id(),
            KerberosEtype::Sha2(e) => e.checksum_type_id(),
            KerberosEtype::Des3CbcSha1Kd(e) => e.checksum_type_id(),
            KerberosEtype::Rc4Hmac(e) => e.checksum_type_id(),
        }
    }

    /// Protocol base key size in bytes.
    pub fn key_len(self) -> (r: usize)
        ensures
            r == self.spec_key_len(),
    {
        match self {
            KerberosEtype::Sha1(e) => e.key_len(),
            KerberosEtype::Sha2(e) => e.key_len(),
            KerberosEtype::Des3CbcSha1Kd(e) => e.key_len(),
            KerberosEtype::Rc4Hmac(e) => e.key_len(),
        }
    }

    /// Confounder size in bytes.
    pub fn confounder_len(self) -> (r: usize)
        ensures
            r == self.spec_confounder_len(),
    {
        match self {
            KerberosEtype::Sha1(e) => e.confounder_len(),
            KerberosEtype::Sha2(e) => e.confounder_len(),
            KerberosEtype::Des3CbcSha1Kd(e) => e.confounder_len(),
            KerberosEtype::Rc4Hmac(e) => e.confounder_len(),
        }
    }

    /// Truncated HMAC size in bytes.
    pub fn hmac_len(self) -> (r: usize)
        ensures
            r == self.spec_hmac_len(),
    {
        match self {
            KerberosEtype::Sha1(e) => e.hmac_len(),
            KerberosEtype::Sha2(e) => e.hmac_len(),
            KerberosEtype::Des3CbcSha1Kd(e) => e.hmac_len(),
            KerberosEtype::Rc4Hmac(e) => e.hmac_len(),
        }
    }

    /// Default string-to-key parameters, encoded as big-endian hex.
    pub fn default_s2kparams(self) -> (r: &'static str)
        ensures
            r@ == self.spec_default_s2kparams(),
    {
        match self {
            KerberosEtype::Sha1(e) => e.default_s2kparams(),
            KerberosEtype::Sha2(e) => e.default_s2kparams(),
            KerberosEtype::Des3CbcSha1Kd(e) => e.default_s2kparams(),
            KerberosEtype::Rc4Hmac(e) => e.default_s2kparams(),
        }
    }

    /// Derive a protocol key from a password and salt.
    pub fn string_to_key(self, secret: &[u8], salt: &[u8], s2kparams: &str) -> (r: Result<
        Vec<u8>,
        Error,
    >)
        requires
            self.spec_string_to_key_fits(secret@, salt@),
        ensures
            spec_bytes_result(r) == self.spec_string_to_key(secret@, salt@, s2kparams.spec_bytes()),
    {
        match self {
            KerberosEtype::Sha1(e) => e.string_to_key(secret, salt, s2kparams),
            KerberosEtype::Sha2(e) => e.string_to_key(secret, salt, s2kparams),
            KerberosEtype::Des3CbcSha1Kd(e) => e.string_to_key(secret, salt, s2kparams),
            KerberosEtype::Rc4Hmac(e) => e.string_to_key(secret, salt, s2kparams),
        }
    }

    /// Calculate the keyed checksum for message bytes and a Kerberos key usage.
    pub fn checksum(self, protocol_key: &[u8], data: &[u8], usage: u32) -> (r: Result<
        Vec<u8>,
        Error,
    >)
        requires
            spec_len_fits(data@.len() + 4),
        ensures
            spec_bytes_result(r) == self.spec_checksum(protocol_key@, data@, usage),
    {
        match self {
            KerberosEtype::Sha1(e) => e.checksum(protocol_key, data, usage),
            KerberosEtype::Sha2(e) => e.checksum(protocol_key, data, usage),
            KerberosEtype::Des3CbcSha1Kd(e) => e.checksum(protocol_key, data, usage),
            KerberosEtype::Rc4Hmac(e) => e.checksum(protocol_key, data, usage),
        }
    }

    /// Verify a keyed checksum.
    pub fn verify_checksum(self, protocol_key: &[u8], data: &[u8], checksum: &[u8], usage: u32) -> (r:
        bool)
        requires
            spec_len_fits(data@.len() + 4),
        ensures
            r == (self.spec_checksum(protocol_key@, data@, usage) == Ok::<Seq<u8>, Error>(
                checksum@,
            )),
    {
        match self {
            KerberosEtype::Sha1(e) => e.verify_checksum(protocol_key, data, checksum, usage),
            KerberosEtype::Sha2(e) => e.verify_checksum(protocol_key, data, checksum, usage),
            KerberosEtype::Des3CbcSha1Kd(e) => e.verify_checksum(protocol_key, data, checksum, usage),
            KerberosEtype::Rc4Hmac(e) => e.verify_checksum(protocol_key, data, checksum, usage),
        }
    }

    /// Encrypt a Kerberos message with an explicit confounder.
    pub fn encrypt_message_with_confounder(
        self,
        protocol_key: &[u8],
        message: &[u8],
        usage: u32,
        confounder: &[u8],
    ) -> (r: Result<Vec<u8>, Error>)
        requires
            spec_len_fits(message@.len() + 32),
        ensures
            spec_bytes_result(r) == self.spec_encrypt_message(
                protocol_key@,
                message@,
                usage,
                confounder@,
            ),
            r is Ok ==> self.spec_message_keys_behave(protocol_key@, message@, usage, confounder@),
            r matches Ok(ct) ==> self.spec_decrypt_message(protocol_key@, ct@, usage) == Ok::<
                Seq<u8>,
                Error,
            >(
                match self {
                    KerberosEtype::Des3CbcSha1Kd(_) => spec_zero_pad(confounder@ + message@, 8).subrange(
                        8,
                        spec_zero_pad(confounder@ + message@, 8).len() as int,
                    ),
                    _ => message@,
                },
            ),
    {
        match self {
            KerberosEtype::Sha1(e) => e.encrypt_message_with_confounder(
                protocol_key,
                message,
                usage,
                confounder,
            ),
            KerberosEtype::Sha2(e) => e.encrypt_message_with_confounder(
                protocol_key,
                message,
                usage,
                confounder,
            ),
            KerberosEtype::Des3CbcSha1Kd(e) => e.encrypt_message_with_confounder(
                protocol_key,
                message,
                usage,
                confounder,
            ),
            KerberosEtype::Rc4Hmac(e) => e.encrypt_message_with_confounder(
                protocol_key,
                message,
                usage,
                confounder,
            ),
        }
    }

    /// Decrypt a Kerberos message and verify its integrity hash.
    pub fn decrypt_message(self, protocol_key: &[u8], ciphertext: &[u8], usage: u32) -> (r: Result<
        Vec<u8>,
        Error,
    >)
        requires
            spec_len_fits(ciphertext@.len() + 16),
        ensures
            spec_bytes_result(r) == self.spec_decrypt_message(protocol_key@, ciphertext@, usage),
    {
        match self {
            KerberosEtype::Sha1(e) => e.decrypt_message(protocol_key, ciphertext, usage),
            KerberosEtype::Sha2(e) => e.decrypt_message(protocol_key, ciphertext, usage),
            KerberosEtype::Des3CbcSha1Kd(e) => e.decrypt_message(protocol_key, ciphertext, usage),
            KerberosEtype::Rc4Hmac(e) => e.decrypt_message(protocol_key, ciphertext, usage),
        }
    }
}

// ---------------------------------------------------------------------------
// Decrypting what was encrypted

impl AesSha1Etype {
    /// What encrypting `message` relies on of the primitives, for the keys
    /// it derives: AES under the encryption key is inverted by its
    /// decryption, and HMAC-SHA1 under the integrity key gives 20 bytes.
    /// Each successful encryption establishes it.
    pub open spec fn spec_message_keys_behave(
        self,
        key: Seq<u8>,
        message: Seq<u8>,
        usage: u32,
        confounder: Seq<u8>,
    ) -> bool {
        match (
            self.spec_derive_key(key, spec_usage_constant(usage, 0xaa)),
            self.spec_derive_key(key, spec_usage_constant(usage, 0x55)),
        ) {
            (Ok(ek), Ok(ik)) => spec_block_cipher_inverts(BlockCipher::Aes, ek) && hmac_sha1(
                ik,
                confounder + message,
            ).len() == 20,
            _ => true,
        }
    }

    /// Decrypting an encrypted message gives the message back: whatever
    /// `encrypt_message_with_confounder` returns, `decrypt_message` with the
    /// same key and usage turns back into that plaintext.
    pub proof fn lemma_message_roundtrip(
        self,
        key: Seq<u8>,
        message: Seq<u8>,
        usage: u32,
        confounder: Seq<u8>,
    )
        requires
            self.spec_message_keys_behave(key, message, usage, confounder),
            self.spec_encrypt_message(key, message, usage, confounder) is Ok,
        ensures
            self.spec_decrypt_message(
                key,
                self.spec_encrypt_message(key, message, usage, confounder)->Ok_0,
                usage,
            ) == Ok::<Seq<u8>, Error>(message),
    {
        let plain = confounder + message;
        let ek = self.spec_derive_key(key, spec_usage_constant(usage, 0xaa))->Ok_0;
        let ik = self.spec_derive_key(key, spec_usage_constant(usage, 0x55))->Ok_0;
        assert(spec_block_cipher_inverts(BlockCipher::Aes, ek));
        lemma_aes_cts_roundtrip(ek, plain);
        let enc = spec_aes_cts_encrypt(ek, plain)->Ok_0.1;
        let mac = spec_hmac_sha1_96(ik, plain);
        assert(hmac_sha1(ik, plain).len() == 20);
        let ct = enc + mac;
        assert(self.spec_encrypt_message(key, message, usage, confounder)->Ok_0 == ct);
        let n = ct.len() as int;
        assert(ct.subrange(0, n - 12) =~= enc);
        assert(ct.subrange(n - 12, n) =~= mac);
        assert(plain.subrange(16, plain.len() as int) =~= message);
    }
}

impl AesSha2Etype {
    /// What encrypting `message` relies on of the primitives, for the keys
    /// it derives: AES under the encryption key is inverted by its
    /// decryption, and the HMAC under the integrity key gives a full
    /// digest of the AES output. Each successful encryption establishes it.
    pub open spec fn spec_message_keys_behave(
        self,
        key: Seq<u8>,
        message: Seq<u8>,
        usage: u32,
        confounder: Seq<u8>,
    ) -> bool {
        match (
            self.spec_derive_key(key, spec_usage_constant(usage, 0xaa)),
            self.spec_derive_key(key, spec_usage_constant(usage, 0x55)),
        ) {
            (Ok(ek), Ok(ik)) => spec_block_cipher_inverts(BlockCipher::Aes, ek) && match self.spec_encrypt_data(
                ek,
                confounder + message,
            ) {
                Ok((_, enc)) => self.spec_hmac(ik, spec_zeros(16) + enc).len() == self.spec_hash_len(),
                Err(_) => true,
            },
            _ => true,
        }
    }

    /// Decrypting an encrypted message gives the message back: whatever
    /// `encrypt_message_with_confounder` returns, `decrypt_message` with the
    /// same key and usage turns back into that plaintext.
    pub proof fn lemma_message_roundtrip(
        self,
        key: Seq<u8>,
        message: Seq<u8>,
        usage: u32,
        confounder: Seq<u8>,
    )
        requires
            self.spec_message_keys_behave(key, message, usage, confounder),
            self.spec_encrypt_message(key, message, usage, confounder) is Ok,
        ensures
            self.spec_decrypt_message(
                key,
                self.spec_encrypt_message(key, message, usage, confounder)->Ok_0,
                usage,
            ) == Ok::<Seq<u8>, Error>(message),
    {
        let plain = confounder + message;
        let ek = self.spec_derive_key(key, spec_usage_constant(usage, 0xaa))->Ok_0;
        assert(spec_block_cipher_inverts(BlockCipher::Aes, ek));
        lemma_aes_cts_roundtrip(ek, plain);
        let enc = spec_aes_cts_encrypt(ek, plain)->Ok_0.1;
        let mac = self.spec_integrity_hash(key, usage, enc)->Ok_0;
        let ik = self.spec_derive_key(key, spec_usage_constant(usage, 0x55))->Ok_0;
        assert(self.spec_hmac(ik, spec_zeros(16) + enc).len() == self.spec_hash_len());
        assert(mac.len() == self.spec_hmac_len());
        let ct = enc + mac;
        assert(self.spec_encrypt_message(key, message, usage, confounder)->Ok_0 == ct);
        let n = ct.len() as int;
        let h = self.spec_hmac_len() as int;
        assert(ct.subrange(0, n - h) =~= enc);
        assert(ct.subrange(n - h, n) =~= mac);
        assert(plain.subrange(16, plain.len() as int) =~= message);
    }
}

proof fn lemma_zero_pad_len(x: Seq<u8>, b: nat)
    requires
        b > 0,
    ensures
        spec_zero_pad(x, b).len() % b == 0,
        spec_zero_pad(x, b).len() >= x.len(),
        spec_zero_pad(x, b).subrange(0, x.len() as int) == x,
{
    let n = x.len() as int;
    vstd::arithmetic::div_mod::lemma_fundamental_div_mod(n, b as int);
    if n % (b as int) != 0 {
        let q = n / (b as int);
        assert((q + 1) * b == b * q + b) by (nonlinear_arith);
        vstd::arithmetic::div_mod::lemma_fundamental_div_mod_converse(
            n + b - n % (b as int),
            b as int,
            q + 1,
            0,
        );
        assert(spec_zero_pad(x, b).subrange(0, n) =~= x);
    } else {
        assert(x.subrange(0, n) =~= x);
    }
}

impl Des3CbcSha1KdEtype {
    /// What encrypting `message` relies on of the primitives, for the keys
    /// it derives: triple DES under the encryption key is inverted by its
    /// decryption, and HMAC-SHA1 under the integrity key gives 20 bytes.
    /// Each successful encryption establishes it.
    pub open spec fn spec_message_keys_behave(
        self,
        key: Seq<u8>,
        message: Seq<u8>,
        usage: u32,
        confounder: Seq<u8>,
    ) -> bool {
        match (
            self.spec_derive_key(key, spec_usage_constant(usage, 0xaa)),
            self.spec_derive_key(key, spec_usage_constant(usage, 0x55)),
        ) {
            (Ok(ek), Ok(ik)) => spec_block_cipher_inverts(BlockCipher::Tdes, ek) && hmac_sha1(
                ik,
                spec_zero_pad(confounder + message, 8),
            ).len() == 20,
            _ => true,
        }
    }

    /// Decrypting an encrypted message gives back the message after the
    /// confounder with the zero padding added before encryption.
    pub proof fn lemma_message_roundtrip(
        self,
        key: Seq<u8>,
        message: Seq<u8>,
        usage: u32,
        confounder: Seq<u8>,
    )
        requires
            self.spec_message_keys_behave(key, message, usage, confounder),
            self.spec_encrypt_message(key, message, usage, confounder) is Ok,
        ensures
            self.spec_decrypt_message(
                key,
                self.spec_encrypt_message(key, message, usage, confounder)->Ok_0,
                usage,
            ) == Ok::<Seq<u8>, Error>(
                spec_zero_pad(confounder + message, 8).subrange(
                    8,
                    spec_zero_pad(confounder + message, 8).len() as int,
                ),
            ),
    {
        let c = BlockCipher::Tdes;
        let plain = spec_zero_pad(confounder + message, 8);
        lemma_zero_pad_len(confounder + message, 8);
        let ek = self.spec_derive_key(key, spec_usage_constant(usage, 0xaa))->Ok_0;
        let ik = self.spec_derive_key(key, spec_usage_constant(usage, 0x55))->Ok_0;
        assert(spec_block_cipher_inverts(c, ek));
        assert(spec_zero_pad(plain, 8) == plain);
        lemma_cbc_encrypt_len(c, ek, spec_zeros(8), plain);
        lemma_cbc_roundtrip(c, ek, spec_zeros(8), plain);
        let enc = spec_cbc_encrypt(c, ek, spec_zeros(8), plain);
        let mac = hmac_sha1(ik, plain);
        assert(mac.len() == 20);
        let ct = enc + mac;
        assert(self.spec_encrypt_message(key, message, usage, confounder)->Ok_0 == ct);
        let n = ct.len() as int;
        assert(ct.subrange(0, n - 20) =~= enc);
        assert(ct.subrange(n - 20, n) =~= mac);
    }
}

impl Rc4HmacEtype {
    /// What encrypting `message` relies on of the primitives: the two
    /// HMAC-MD5 values are 16 bytes, and RC4 under the derived key keeps
    /// the length and is undone by applying it again. Each successful
    /// encryption establishes it.
    pub open spec fn spec_message_keys_behave(
        self,
        key: Seq<u8>,
        message: Seq<u8>,
        usage: u32,
        confounder: Seq<u8>,
    ) -> bool {
        let plain = confounder + message;
        let uk = self.spec_usage_key(key, usage);
        let checksum = hmac_md5(uk, plain);
        let ek = hmac_md5(uk, checksum);
        &&& checksum.len() == 16
        &&& ek.len() == 16
        &&& rc4(ek, plain).len() == plain.len()
        &&& rc4(ek, rc4(ek, plain)) == plain
    }

    /// Decrypting an encrypted message gives the message back: whatever
    /// `encrypt_message_with_confounder` returns, `decrypt_message` with the
    /// same key and usage turns back into that plaintext.
    pub proof fn lemma_message_roundtrip(
        self,
        key: Seq<u8>,
        message: Seq<u8>,
        usage: u32,
        confounder: Seq<u8>,
    )
        requires
            self.spec_message_keys_behave(key, message, usage, confounder),
            self.spec_encrypt_message(key, message, usage, confounder) is Ok,
        ensures
            self.spec_decrypt_message(
                key,
                self.spec_encrypt_message(key, message, usage, confounder)->Ok_0,
                usage,
            ) == Ok::<Seq<u8>, Error>(message),
    {
        let plain = confounder + message;
        let uk = self.spec_usage_key(key, usage);
        let checksum = hmac_md5(uk, plain);
        let ek = hmac_md5(uk, checksum);
        assert(checksum.len() == 16);
        assert(ek.len() == 16);
        let enc = rc4(ek, plain);
        assert(enc.len() == plain.len());
        assert(rc4(ek, enc) == plain);
        let ct = checksum + enc;
        assert(self.spec_encrypt_message(key, message, usage, confounder)->Ok_0 == ct);
        assert(ct.subrange(0, 16) =~= checksum);
        assert(ct.subrange(16, ct.len() as int) =~= enc);
        assert(plain.subrange(8, plain.len() as int) =~= message);
    }
}

impl KerberosEtype {
    /// What encrypting `message` relies on of the primitives, for the keys
    /// of this encryption type.
    pub open spec fn spec_message_keys_behave(
        self,
        key: Seq<u8>,
        message: Seq<u8>,
        usage: u32,
        confounder: Seq<u8>,
    ) -> bool {
        match self {
            KerberosEtype::Sha1(e) => e.spec_message_keys_behave(key, message, usage, confounder),
            KerberosEtype::Sha2(e) => e.spec_message_keys_behave(key, message, usage, confounder),
            KerberosEtype::Des3CbcSha1Kd(e) => e.spec_message_keys_behave(key, message, usage, confounder),
            KerberosEtype::Rc4Hmac(e) => e.spec_message_keys_behave(key, message, usage, confounder),
        }
    }

    /// Decrypting an encrypted message gives the message back, for every
    /// supported encryption type; DES3 keeps the zero padding it added.
    pub proof fn lemma_message_roundtrip(
        self,
        key: Seq<u8>,
        message: Seq<u8>,
        usage: u32,
        confounder: Seq<u8>,
    )
        requires
            self.spec_message_keys_behave(key, message, usage, confounder),
            self.spec_encrypt_message(key, message, usage, confounder) is Ok,
        ensures
            self.spec_decrypt_message(
                key,
                self.spec_encrypt_message(key, message, usage, confounder)->Ok_0,
                usage,
            ) == Ok::<Seq<u8>, Error>(
                match self {
                    KerberosEtype::Des3CbcSha1Kd(_) => spec_zero_pad(confounder + message, 8).subrange(
                        8,
                        spec_zero_pad(confounder + message, 8).len() as int,
                    ),
                    _ => message,
                },
            ),
    {
        match self {
            KerberosEtype::Sha1(e) => e.lemma_message_roundtrip(key, message, usage, confounder),
            KerberosEtype::Sha2(e) => e.lemma_message_roundtrip(key, message, usage, confounder),
            KerberosEtype::Des3CbcSha1Kd(e) => e.lemma_message_roundtrip(
                key,
                message,
                usage,
                confounder,
            ),
            KerberosEtype::Rc4Hmac(e) => e.lemma_message_roundtrip(key, message, usage, confounder),
        }
    }
}

} // verus!
