//! Block cipher modes of the Kerberos profiles: CBC with a zero initial
//! vector, RFC3962 AES ciphertext stealing, and zero-padded DES3-CBC.

use vstd::prelude::*;

use crate::crypto::{
    spec_swap_last_two_blocks, spec_xor, spec_zero_pad, spec_zeros, swap_last_two_blocks,
    xor_bytes, zero_pad, zeros, Error,
};
use crate::primitives::{
    aes128_decrypt, aes128_decrypt_block, aes128_encrypt, aes128_encrypt_block, aes256_decrypt,
    aes256_decrypt_block, aes256_encrypt, aes256_encrypt_block, tdes_decrypt, tdes_decrypt_block,
    tdes_encrypt, tdes_encrypt_block,
};
use crate::wire::extend_bytes;

verus! {

/// The block ciphers the profiles use.
#[derive(Clone, Copy, Debug, PartialEq, Eq)]
pub enum BlockCipher {
    /// AES with a 16- or 32-byte key; 16-byte blocks.
    Aes,
    /// Three-key triple DES; 24-byte key, 8-byte blocks.
    Tdes,
}

/// Block size in bytes.
pub open spec fn spec_block_len(c: BlockCipher) -> nat {
    match c {
        BlockCipher::Aes => 16,
        BlockCipher::Tdes => 8,
    }
}

/// Whether `key` has a length the cipher accepts.
pub open spec fn spec_cipher_key_ok(c: BlockCipher, key: Seq<u8>) -> bool {
    match c {
        BlockCipher::Aes => key.len() == 16 || key.len() == 32,
        BlockCipher::Tdes => key.len() == 24,
    }
}

/// One block encrypted.
pub open spec fn spec_encrypt_block(c: BlockCipher, key: Seq<u8>, block: Seq<u8>) -> Seq<u8> {
    match c {
        BlockCipher::Aes => if key.len() == 16 {
            aes128_encrypt(key, block)
        } else {
            aes256_encrypt(key, block)
        },
        BlockCipher::Tdes => tdes_encrypt(key, block),
    }
}

/// One block decrypted.
pub open spec fn spec_decrypt_block(c: BlockCipher, key: Seq<u8>, block: Seq<u8>) -> Seq<u8> {
    match c {
        BlockCipher::Aes => if key.len() == 16 {
            aes128_decrypt(key, block)
        } else {
            aes256_decrypt(key, block)
        },
        BlockCipher::Tdes => tdes_decrypt(key, block),
    }
}

pub(crate) fn block_len(c: BlockCipher) -> (r: usize)
    ensures
        r == spec_block_len(c),
{
    match c {
        BlockCipher::Aes => 16,
        BlockCipher::Tdes => 8,
    }
}

pub(crate) fn encrypt_block(c: BlockCipher, key: &[u8], block: &[u8]) -> (r: Vec<u8>)
    requires
        spec_cipher_key_ok(c, key@),
        block@.len() == spec_block_len(c),
    ensures
        r@ == spec_encrypt_block(c, key@, block@),
        r@.len() == spec_block_len(c),
        spec_decrypt_block(c, key@, r@) == block@,
        spec_block_cipher_inverts(c, key@),
{
    match c {
        BlockCipher::Aes => if key.len() == 16 {
            aes128_encrypt_block(key, block)
        } else {
            aes256_encrypt_block(key, block)
        },
        BlockCipher::Tdes => tdes_encrypt_block(key, block),
    }
}

pub(crate) fn decrypt_block(c: BlockCipher, key: &[u8], block: &[u8]) -> (r: Vec<u8>)
    requires
        spec_cipher_key_ok(c, key@),
        block@.len() == spec_block_len(c),
    ensures
        r@ == spec_decrypt_block(c, key@, block@),
        r@.len() == spec_block_len(c),
        spec_encrypt_block(c, key@, r@) == block@,
{
    match c {
        BlockCipher::Aes => if key.len() == 16 {
            aes128_decrypt_block(key, block)
        } else {
            aes256_decrypt_block(key, block)
        },
        BlockCipher::Tdes => tdes_decrypt_block(key, block),
    }
}

// ---------------------------------------------------------------------------
// CBC

/// CBC encryption of whole blocks: each plaintext block is XORed with the
/// previous ciphertext block (the first with `iv`) and encrypted.
pub open spec fn spec_cbc_encrypt(c: BlockCipher, key: Seq<u8>, iv: Seq<u8>, plain: Seq<u8>) -> Seq<
    u8,
>
    decreases plain.len(),
{
    let bl = spec_block_len(c);
    let n = plain.len() as int;
    if n < bl {
        Seq::empty()
    } else {
        let prev = spec_cbc_encrypt(c, key, iv, plain.subrange(0, n - bl));
        let chain = if n == bl {
            iv
        } else {
            prev.subrange(prev.len() - bl, prev.len() as int)
        };
        prev + spec_encrypt_block(c, key, spec_xor(plain.subrange(n - bl, n), chain))
    }
}

/// CBC decryption of whole blocks: each ciphertext block is decrypted and
/// XORed with the previous ciphertext block (the first with `iv`).
pub open spec fn spec_cbc_decrypt(c: BlockCipher, key: Seq<u8>, iv: Seq<u8>, cipher: Seq<u8>) -> Seq<
    u8,
>
    decreases cipher.len(),
{
    let bl = spec_block_len(c);
    let n = cipher.len() as int;
    if n < bl {
        Seq::empty()
    } else {
        let chain = if n == bl {
            iv
        } else {
            cipher.subrange(n - 2 * bl, n - bl)
        };
        spec_cbc_decrypt(c, key, iv, cipher.subrange(0, n - bl)) + spec_xor(
            spec_decrypt_block(c, key, cipher.subrange(n - bl, n)),
            chain,
        )
    }
}

/// The block after a whole number of blocks that ends before `n`, itself
/// a whole number of blocks, still ends within `n`.
proof fn lemma_next_block(i: int, n: int, bl: int)
    requires
        0 <= i < n,
        bl > 0,
        i % bl == 0,
        n % bl == 0,
    ensures
        i + bl <= n,
        (i + bl) % bl == 0,
{
    vstd::arithmetic::div_mod::lemma_fundamental_div_mod(n, bl);
    vstd::arithmetic::div_mod::lemma_fundamental_div_mod(i, bl);
    let qn = n / bl;
    let qi = i / bl;
    assert(qi < qn) by (nonlinear_arith)
        requires
            i == bl * qi,
            n == bl * qn,
            i < n,
            bl > 0,
    ;
    assert(i + bl <= n) by (nonlinear_arith)
        requires
            i == bl * qi,
            n == bl * qn,
            qi + 1 <= qn,
            bl > 0,
    ;
    assert(i + bl == bl * (qi + 1)) by (nonlinear_arith)
        requires
            i == bl * qi,
    ;
    vstd::arithmetic::div_mod::lemma_fundamental_div_mod_converse(i + bl, bl, qi + 1, 0);
}

pub(crate) fn cbc_encrypt(c: BlockCipher, key: &[u8], iv: &[u8], plain: &[u8]) -> (r: Vec<u8>)
    requires
        spec_cipher_key_ok(c, key@),
        iv@.len() == spec_block_len(c),
        plain@.len() % spec_block_len(c) == 0,
    ensures
        r@ == spec_cbc_encrypt(c, key@, iv@, plain@),
        r@.len() == plain@.len(),
        plain@.len() > 0 ==> spec_block_cipher_inverts(c, key@),
{
    let bl = block_len(c);
    let mut out: Vec<u8> = Vec::new();
    let mut previous: Vec<u8> = Vec::new();
    extend_bytes(&mut previous, iv);
    let mut i: usize = 0;
    proof {
        assert(plain@.subrange(0, 0).len() == 0);
    }
    while i < plain.len()
        invariant
            bl == spec_block_len(c),
            spec_cipher_key_ok(c, key@),
            iv@.len() == bl,
            plain@.len() % (bl as nat) == 0,
            i <= plain@.len(),
            i % bl == 0,
            out@.len() == i,
            out@ == spec_cbc_encrypt(c, key@, iv@, plain@.subrange(0, i as int)),
            i > 0 ==> spec_block_cipher_inverts(c, key@),
            previous@ == if i == 0 {
                iv@
            } else {
                out@.subrange(i - bl, i as int)
            },
        decreases plain@.len() - i,
    {
        proof {
            lemma_next_block(i as int, plain@.len() as int, bl as int);
        }
        let chunk = &plain[i..i + bl];
        let mixed = xor_bytes(chunk, previous.as_slice());
        let block = encrypt_block(c, key, mixed.as_slice());
        let ghost before = out@;
        extend_bytes(&mut out, block.as_slice());
        proof {
            let p = plain@.subrange(0, i + bl);
            assert(p.subrange(0, i as int) =~= plain@.subrange(0, i as int));
            assert(p.subrange(i as int, i + bl) =~= chunk@);
            assert(out@.subrange(i as int, i + bl) =~= block@);
        }
        previous = block;
        i = i + bl;
    }
    proof {
        assert(plain@.subrange(0, plain@.len() as int) =~= plain@);
    }
    out
}

pub(crate) fn cbc_decrypt(c: BlockCipher, key: &[u8], iv: &[u8], cipher: &[u8]) -> (r: Vec<u8>)
    requires
        spec_cipher_key_ok(c, key@),
        iv@.len() == spec_block_len(c),
        cipher@.len() % spec_block_len(c) == 0,
    ensures
        r@ == spec_cbc_decrypt(c, key@, iv@, cipher@),
        r@.len() == cipher@.len(),
{
    let bl = block_len(c);
    let mut out: Vec<u8> = Vec::new();
    let mut i: usize = 0;
    proof {
        assert(cipher@.subrange(0, 0).len() == 0);
    }
    while i < cipher.len()
        invariant
            bl == spec_block_len(c),
            spec_cipher_key_ok(c, key@),
            iv@.len() == bl,
            cipher@.len() % (bl as nat) == 0,
            i <= cipher@.len(),
            i % bl == 0,
            out@.len() == i,
            out@ == spec_cbc_decrypt(c, key@, iv@, cipher@.subrange(0, i as int)),
        decreases cipher@.len() - i,
    {
        proof {
            lemma_next_block(i as int, cipher@.len() as int, bl as int);
        }
        let chunk = &cipher[i..i + bl];
        let plain = decrypt_block(c, key, chunk);
        let mixed = if i == 0 {
            xor_bytes(plain.as_slice(), iv)
        } else {
            xor_bytes(plain.as_slice(), &cipher[i - bl..i])
        };
        extend_bytes(&mut out, mixed.as_slice());
        proof {
            let p = cipher@.subrange(0, i + bl);
            assert(p.subrange(0, i as int) =~= cipher@.subrange(0, i as int));
            assert(p.subrange(i as int, i + bl) =~= chunk@);
            if i > 0 {
                assert(p.subrange(i - bl, i as int) =~= cipher@.subrange(i - bl, i as int));
            }
        }
        i = i + bl;
    }
    proof {
        assert(cipher@.subrange(0, cipher@.len() as int) =~= cipher@);
    }
    out
}

// ---------------------------------------------------------------------------
// AES with ciphertext stealing (RFC3962)

/// RFC3962 AES-CTS encryption with a zero initial vector: `(next_iv,
/// ciphertext)`. One block or less is padded with zeros and encrypted as
/// is; a whole number of blocks is CBC with the last two blocks swapped;
/// otherwise the zero-padded last block is chained after the next-to-last,
/// the two are swapped, and the result cut to the plaintext's length.
pub open spec fn spec_aes_cts_encrypt(key: Seq<u8>, plain: Seq<u8>) -> Result<
    (Seq<u8>, Seq<u8>),
    Error,
> {
    let c = BlockCipher::Aes;
    let iv = spec_zeros(16);
    let n = plain.len() as int;
    if n == 0 {
        Err(Error::EmptyPlaintext)
    } else if n <= 16 {
        let e = spec_cbc_encrypt(c, key, iv, spec_zero_pad(plain, 16));
        Ok((e, e))
    } else if n % 16 == 0 {
        let e = spec_cbc_encrypt(c, key, iv, plain);
        Ok((e.subrange(n - 16, n), spec_swap_last_two_blocks(e)))
    } else {
        let padded = spec_zero_pad(plain, 16);
        let m = padded.len() as int;
        let regular = spec_cbc_encrypt(c, key, iv, padded.subrange(0, m - 32));
        let chained = if m == 32 {
            iv
        } else {
            regular.subrange(m - 48, m - 32)
        };
        let penultimate = spec_encrypt_block(c, key, spec_xor(padded.subrange(m - 32, m - 16), chained));
        let last = spec_encrypt_block(c, key, spec_xor(padded.subrange(m - 16, m), penultimate));
        Ok((last, (regular + last + penultimate).subrange(0, n)))
    }
}

/// RFC3962 AES-CTS decryption with a zero initial vector, undoing
/// `spec_aes_cts_encrypt`.
pub open spec fn spec_aes_cts_decrypt(key: Seq<u8>, cipher: Seq<u8>) -> Result<Seq<u8>, Error> {
    let c = BlockCipher::Aes;
    let iv = spec_zeros(16);
    let n = cipher.len() as int;
    if n < 16 {
        Err(Error::CiphertextTooShort { minimum: 16, actual: n as usize })
    } else if n % 16 == 0 {
        if n == 16 {
            Ok(spec_cbc_decrypt(c, key, iv, cipher))
        } else {
            Ok(spec_cbc_decrypt(c, key, iv, spec_swap_last_two_blocks(cipher)))
        }
    } else {
        let short = n % 16;
        let rl = n - 16 - short;
        let regular = cipher.subrange(0, rl);
        let penultimate = cipher.subrange(rl, rl + 16);
        let last = cipher.subrange(rl + 16, n);
        let chain = if rl == 0 {
            iv
        } else {
            regular.subrange(rl - 16, rl)
        };
        let pen_plain = spec_decrypt_block(c, key, penultimate);
        let completed = last + pen_plain.subrange(short, 16);
        let last_plain = spec_xor(spec_decrypt_block(c, key, completed), chain);
        let pen2 = spec_xor(pen_plain, completed);
        Ok((spec_cbc_decrypt(c, key, iv, regular) + last_plain + pen2).subrange(0, n))
    }
}

/// Lengths that the byte strings here may have: slices never exceed
/// `isize::MAX` bytes.
pub open spec fn spec_len_fits(n: nat) -> bool {
    n <= isize::MAX
}

pub(crate) fn aes_cts_encrypt(key: &[u8], plain: &[u8]) -> (r: Result<(Vec<u8>, Vec<u8>), Error>)
    requires
        key@.len() == 16 || key@.len() == 32,
        spec_len_fits(plain@.len()),
    ensures
        match r {
            Ok((iv, ct)) => spec_aes_cts_encrypt(key@, plain@) == Ok::<
                (Seq<u8>, Seq<u8>),
                Error,
            >((iv@, ct@)),
            Err(e) => spec_aes_cts_encrypt(key@, plain@) == Err::<(Seq<u8>, Seq<u8>), Error>(e),
        },
        r matches Ok((iv, ct)) ==> iv@.len() == 16 && ct@.len() == if plain@.len() <= 16 {
            16
        } else {
            plain@.len()
        },
        r is Ok ==> spec_block_cipher_inverts(BlockCipher::Aes, key@),
{
    let c = BlockCipher::Aes;
    if plain.len() == 0 {
        return Err(Error::EmptyPlaintext);
    }
    let iv = zeros(16);
    if plain.len() <= 16 {
        let mut padded: Vec<u8> = Vec::new();
        extend_bytes(&mut padded, plain);
        zero_pad(&mut padded, 16);
        let encrypted = cbc_encrypt(c, key, iv.as_slice(), padded.as_slice());
        let copy = copy_bytes(encrypted.as_slice());
        return Ok((copy, encrypted));
    }
    if plain.len() % 16 == 0 {
        let mut encrypted = cbc_encrypt(c, key, iv.as_slice(), plain);
        let n = encrypted.len();
        let next_iv = copy_bytes(&encrypted.as_slice()[n - 16..n]);
        swap_last_two_blocks(&mut encrypted);
        return Ok((next_iv, encrypted));
    }
    let plain_len = plain.len();
    let mut padded: Vec<u8> = Vec::new();
    extend_bytes(&mut padded, plain);
    zero_pad(&mut padded, 16);
    let m = padded.len();
    proof {
        vstd::arithmetic::div_mod::lemma_fundamental_div_mod(plain_len as int, 16);
    }
    let regular_len = m - 32;
    let regular_plain = &padded.as_slice()[0..regular_len];
    let penultimate_plain = &padded.as_slice()[regular_len..regular_len + 16];
    let last_plain = &padded.as_slice()[regular_len + 16..m];
    proof {
        vstd::arithmetic::div_mod::lemma_mod_sub_multiples_vanish(m as int, 16);
        assert((m - 32) % 16 == 0) by {
            vstd::arithmetic::div_mod::lemma_fundamental_div_mod(m as int, 16);
        }
    }
    let regular = cbc_encrypt(c, key, iv.as_slice(), regular_plain);
    let chained = if regular_len == 0 {
        copy_bytes(iv.as_slice())
    } else {
        copy_bytes(&regular.as_slice()[regular_len - 16..regular_len])
    };
    let pen_in = xor_bytes(penultimate_plain, chained.as_slice());
    let penultimate = encrypt_block(c, key, pen_in.as_slice());
    let last_in = xor_bytes(last_plain, penultimate.as_slice());
    let last = encrypt_block(c, key, last_in.as_slice());
    let mut ciphertext: Vec<u8> = Vec::new();
    extend_bytes(&mut ciphertext, regular.as_slice());
    extend_bytes(&mut ciphertext, last.as_slice());
    extend_bytes(&mut ciphertext, penultimate.as_slice());
    let truncated = copy_bytes(&ciphertext.as_slice()[0..plain_len]);
    proof {
        assert(padded@.subrange(0, m - 32) =~= regular_plain@);
        assert(padded@.subrange(m - 32, m - 16) =~= penultimate_plain@);
        assert(padded@.subrange(m - 16, m as int) =~= last_plain@);
        if regular_len > 0 {
            assert(regular@.subrange(m - 48, m - 32) =~= chained@);
        }
        assert(ciphertext@ =~= regular@ + last@ + penultimate@);
    }
    Ok((last, truncated))
}

/// A copy of `bytes`.
pub(crate) fn copy_bytes(bytes: &[u8]) -> (r: Vec<u8>)
    ensures
        r@ == bytes@,
{
    let mut out: Vec<u8> = Vec::new();
    extend_bytes(&mut out, bytes);
    assert(out@ =~= bytes@);
    out
}

pub(crate) fn aes_cts_decrypt(key: &[u8], cipher: &[u8]) -> (r: Result<Vec<u8>, Error>)
    requires
        key@.len() == 16 || key@.len() == 32,
        spec_len_fits(cipher@.len()),
    ensures
        match r {
            Ok(p) => spec_aes_cts_decrypt(key@, cipher@) == Ok::<Seq<u8>, Error>(p@),
            Err(e) => spec_aes_cts_decrypt(key@, cipher@) == Err::<Seq<u8>, Error>(e),
        },
{
    let c = BlockCipher::Aes;
    let n = cipher.len();
    if n < 16 {
        return Err(Error::CiphertextTooShort { minimum: 16, actual: n });
    }
    let iv = zeros(16);
    if n % 16 == 0 {
        if n == 16 {
            return Ok(cbc_decrypt(c, key, iv.as_slice(), cipher));
        }
        let mut swapped = copy_bytes(cipher);
        swap_last_two_blocks(&mut swapped);
        return Ok(cbc_decrypt(c, key, iv.as_slice(), swapped.as_slice()));
    }
    let short = n % 16;
    let rl = n - 16 - short;
    proof {
        vstd::arithmetic::div_mod::lemma_fundamental_div_mod(n as int, 16);
        assert(rl % 16 == 0) by {
            vstd::arithmetic::div_mod::lemma_fundamental_div_mod_converse(
                rl as int,
                16,
                (n / 16 - 1) as int,
                0,
            );
        }
    }
    let regular = &cipher[0..rl];
    let penultimate = &cipher[rl..rl + 16];
    let last = &cipher[rl + 16..n];
    let mut plaintext: Vec<u8> = Vec::new();
    let chain = if rl == 0 {
        copy_bytes(iv.as_slice())
    } else {
        let regular_plain = cbc_decrypt(c, key, iv.as_slice(), regular);
        extend_bytes(&mut plaintext, regular_plain.as_slice());
        copy_bytes(&regular[rl - 16..rl])
    };
    let pen_plain = decrypt_block(c, key, penultimate);
    let mut completed = copy_bytes(last);
    extend_bytes(&mut completed, &pen_plain.as_slice()[short..16]);
    let last_dec = decrypt_block(c, key, completed.as_slice());
    let last_plain = xor_bytes(last_dec.as_slice(), chain.as_slice());
    extend_bytes(&mut plaintext, last_plain.as_slice());
    let pen2 = xor_bytes(pen_plain.as_slice(), completed.as_slice());
    extend_bytes(&mut plaintext, pen2.as_slice());
    let out = copy_bytes(&plaintext.as_slice()[0..n]);
    proof {
        if rl == 0 {
            assert(regular@ =~= Seq::<u8>::empty());
            assert(spec_cbc_decrypt(c, key@, iv@, regular@) =~= Seq::<u8>::empty());
        }
    }
    Ok(out)
}

// ---------------------------------------------------------------------------
// DES3-CBC

/// DES3-CBC encryption with a zero initial vector after zero padding to
/// whole blocks: `(next_iv, ciphertext)`.
pub open spec fn spec_des3_cbc_encrypt(key: Seq<u8>, plain: Seq<u8>) -> Result<
    (Seq<u8>, Seq<u8>),
    Error,
> {
    if plain.len() == 0 {
        Err(Error::EmptyPlaintext)
    } else {
        let e = spec_cbc_encrypt(BlockCipher::Tdes, key, spec_zeros(8), spec_zero_pad(plain, 8));
        Ok((e.subrange(e.len() - 8, e.len() as int), e))
    }
}

/// DES3-CBC decryption with a zero initial vector of whole blocks.
pub open spec fn spec_des3_cbc_decrypt(key: Seq<u8>, cipher: Seq<u8>) -> Result<Seq<u8>, Error> {
    if cipher.len() < 8 {
        Err(Error::CiphertextTooShort { minimum: 8, actual: cipher.len() as usize })
    } else if cipher.len() % 8 != 0 {
        Err(Error::InvalidCiphertextBlockSize { block_size: 8, actual: cipher.len() as usize })
    } else {
        Ok(spec_cbc_decrypt(BlockCipher::Tdes, key, spec_zeros(8), cipher))
    }
}

pub(crate) fn des3_cbc_encrypt(key: &[u8], plain: &[u8]) -> (r: Result<(Vec<u8>, Vec<u8>), Error>)
    requires
        key@.len() == 24,
        spec_len_fits(plain@.len()),
    ensures
        match r {
            Ok((iv, ct)) => spec_des3_cbc_encrypt(key@, plain@) == Ok::<
                (Seq<u8>, Seq<u8>),
                Error,
            >((iv@, ct@)),
            Err(e) => spec_des3_cbc_encrypt(key@, plain@) == Err::<(Seq<u8>, Seq<u8>), Error>(e),
        },
        r matches Ok((iv, ct)) ==> iv@.len() == 8 && ct@.len() >= 8 && ct@.len() >= plain@.len()
            && ct@.len() % 8 == 0 && (plain@.len() % 8 == 0 ==> ct@.len() == plain@.len()),
        r is Ok ==> spec_block_cipher_inverts(BlockCipher::Tdes, key@),
{
    if plain.len() == 0 {
        return Err(Error::EmptyPlaintext);
    }
    let mut padded = copy_bytes(plain);
    zero_pad(&mut padded, 8);
    let iv = zeros(8);
    let out = cbc_encrypt(BlockCipher::Tdes, key, iv.as_slice(), padded.as_slice());
    let n = out.len();
    let next_iv = copy_bytes(&out.as_slice()[n - 8..n]);
    Ok((next_iv, out))
}

pub(crate) fn des3_cbc_decrypt(key: &[u8], cipher: &[u8]) -> (r: Result<Vec<u8>, Error>)
    requires
        key@.len() == 24,
    ensures
        match r {
            Ok(p) => spec_des3_cbc_decrypt(key@, cipher@) == Ok::<Seq<u8>, Error>(p@),
            Err(e) => spec_des3_cbc_decrypt(key@, cipher@) == Err::<Seq<u8>, Error>(e),
        },
{
    if cipher.len() < 8 {
        return Err(Error::CiphertextTooShort { minimum: 8, actual: cipher.len() });
    }
    if cipher.len() % 8 != 0 {
        return Err(Error::InvalidCiphertextBlockSize { block_size: 8, actual: cipher.len() });
    }
    let iv = zeros(8);
    Ok(cbc_decrypt(BlockCipher::Tdes, key, iv.as_slice(), cipher))
}

// ---------------------------------------------------------------------------
// Decryption undoes encryption

/// Whether the block cipher `c` under `key` maps every block to a block of
/// the same size, and its decryption undoes its encryption: what a block
/// cipher is.
pub open spec fn spec_block_cipher_inverts(c: BlockCipher, key: Seq<u8>) -> bool {
    forall|b: Seq<u8>|
        b.len() == spec_block_len(c) ==> {
            &&& (#[trigger] spec_encrypt_block(c, key, b)).len() == spec_block_len(c)
            &&& spec_decrypt_block(c, key, spec_encrypt_block(c, key, b)) == b
        }
}

proof fn lemma_xor_twice(a: Seq<u8>, b: Seq<u8>)
    requires
        a.len() == b.len(),
    ensures
        spec_xor(spec_xor(a, b), b) == a,
        spec_xor(a, b).len() == a.len(),
{
    assert forall|i: int| 0 <= i < a.len() implies spec_xor(spec_xor(a, b), b)[i] == a[i] by {
        let x = a[i];
        let y = b[i];
        assert((x ^ y) ^ y == x) by (bit_vector);
    }
    assert(spec_xor(spec_xor(a, b), b) =~= a);
}

pub proof fn lemma_cbc_encrypt_len(c: BlockCipher, key: Seq<u8>, iv: Seq<u8>, plain: Seq<u8>)
    requires
        spec_block_cipher_inverts(c, key),
        iv.len() == spec_block_len(c),
        plain.len() % spec_block_len(c) == 0,
    ensures
        spec_cbc_encrypt(c, key, iv, plain).len() == plain.len(),
    decreases plain.len(),
{
    let bl = spec_block_len(c);
    let n = plain.len() as int;
    if n >= bl {
        let prev_plain = plain.subrange(0, n - bl);
        vstd::arithmetic::div_mod::lemma_mod_sub_multiples_vanish(n, bl as int);
        lemma_cbc_encrypt_len(c, key, iv, prev_plain);
        let prev = spec_cbc_encrypt(c, key, iv, prev_plain);
        let chain = if n == bl {
            iv
        } else {
            prev.subrange(prev.len() - bl, prev.len() as int)
        };
        let mixed = spec_xor(plain.subrange(n - bl, n), chain);
        assert(mixed.len() == bl);
        assert(spec_encrypt_block(c, key, mixed).len() == bl);
    } else {
        if n > 0 {
            vstd::arithmetic::div_mod::lemma_small_mod(n as nat, bl);
        }
    }
}

/// CBC decryption undoes CBC encryption under the same key and initial
/// vector, for any whole number of blocks.
pub proof fn lemma_cbc_roundtrip(c: BlockCipher, key: Seq<u8>, iv: Seq<u8>, plain: Seq<u8>)
    requires
        spec_block_cipher_inverts(c, key),
        iv.len() == spec_block_len(c),
        plain.len() % spec_block_len(c) == 0,
    ensures
        spec_cbc_decrypt(c, key, iv, spec_cbc_encrypt(c, key, iv, plain)) == plain,
    decreases plain.len(),
{
    let bl = spec_block_len(c);
    let n = plain.len() as int;
    if n >= bl {
        let prev_plain = plain.subrange(0, n - bl);
        vstd::arithmetic::div_mod::lemma_mod_sub_multiples_vanish(n, bl as int);
        lemma_cbc_roundtrip(c, key, iv, prev_plain);
        lemma_cbc_encrypt_len(c, key, iv, prev_plain);
        let prev = spec_cbc_encrypt(c, key, iv, prev_plain);
        let chain = if n == bl {
            iv
        } else {
            prev.subrange(prev.len() - bl, prev.len() as int)
        };
        let last = plain.subrange(n - bl, n);
        let mixed = spec_xor(last, chain);
        let block = spec_encrypt_block(c, key, mixed);
        let ct = spec_cbc_encrypt(c, key, iv, plain);
        assert(ct == prev + block);
        lemma_xor_twice(last, chain);
        assert(ct.subrange(0, n - bl) =~= prev);
        assert(ct.subrange(n - bl, n) =~= block);
        if n > bl {
            assert(ct.subrange(n - 2 * bl, n - bl) =~= chain);
        }
        assert(spec_cbc_decrypt(c, key, iv, ct) == prev_plain + spec_xor(
            spec_decrypt_block(c, key, block),
            chain,
        ));
        assert(prev_plain + last =~= plain);
    } else {
        if n > 0 {
            vstd::arithmetic::div_mod::lemma_small_mod(n as nat, bl);
        }
        assert(plain =~= Seq::<u8>::empty());
    }
}

proof fn lemma_swap_twice(x: Seq<u8>)
    requires
        x.len() >= 32,
    ensures
        spec_swap_last_two_blocks(spec_swap_last_two_blocks(x)) == x,
        spec_swap_last_two_blocks(x).len() == x.len(),
{
    assert(spec_swap_last_two_blocks(spec_swap_last_two_blocks(x)) =~= x);
}

#[verifier::spinoff_prover]
#[verifier::rlimit(60)]
proof fn lemma_cts_steal_roundtrip(key: Seq<u8>, plain: Seq<u8>)
    requires
        spec_block_cipher_inverts(BlockCipher::Aes, key),
        plain.len() > 16,
        plain.len() % 16 != 0,
    ensures
        spec_aes_cts_encrypt(key, plain) matches Ok((_, ct)) && ct.len() == plain.len()
            && spec_aes_cts_decrypt(key, ct) == Ok::<Seq<u8>, Error>(plain),
{
    let c = BlockCipher::Aes;
    let iv = spec_zeros(16);
    let n = plain.len() as int;
    let short = n % 16;
    let padded = spec_zero_pad(plain, 16);
    let m = padded.len() as int;
    assert(m == n + 16 - short);
    vstd::arithmetic::div_mod::lemma_fundamental_div_mod(n, 16);
    let rl = m - 32;
    assert(rl == n - 16 - short);
    assert(rl % 16 == 0) by {
        vstd::arithmetic::div_mod::lemma_fundamental_div_mod_converse(rl, 16, n / 16 - 1, 0);
    }
    let regular_plain = padded.subrange(0, rl);
    let regular = spec_cbc_encrypt(c, key, iv, regular_plain);
    lemma_cbc_encrypt_len(c, key, iv, regular_plain);
    lemma_cbc_roundtrip(c, key, iv, regular_plain);
    let chained = if m == 32 {
        iv
    } else {
        regular.subrange(m - 48, m - 32)
    };
    let ppen = padded.subrange(m - 32, m - 16);
    let plast = padded.subrange(m - 16, m);
    let pen_in = spec_xor(ppen, chained);
    let pen = spec_encrypt_block(c, key, pen_in);
    let last_in = spec_xor(plast, pen);
    let last = spec_encrypt_block(c, key, last_in);
    assert(pen.len() == 16);
    assert(last.len() == 16);
    let ct = (regular + last + pen).subrange(0, n);
    assert(spec_aes_cts_encrypt(key, plain) == Ok::<(Seq<u8>, Seq<u8>), Error>((last, ct)));
    // Decryption
    assert(ct.subrange(0, rl) =~= regular);
    assert(ct.subrange(rl, rl + 16) =~= last);
    assert(ct.subrange(rl + 16, n) =~= pen.subrange(0, short));
    let pen_plain = spec_decrypt_block(c, key, last);
    assert(pen_plain == last_in);
    let completed = pen.subrange(0, short) + pen_plain.subrange(short, 16);
    assert forall|j: int| 0 <= j < 16 implies completed[j] == pen[j] by {
        if j >= short {
            assert(plast[j] == 0u8);
            let y = pen[j];
            assert(0u8 ^ y == y) by (bit_vector);
        }
    }
    assert(completed =~= pen);
    lemma_xor_twice(ppen, chained);
    lemma_xor_twice(plast, pen);
    let chain = if rl == 0 {
        iv
    } else {
        regular.subrange(rl - 16, rl)
    };
    assert(chain == chained);
    assert(spec_xor(spec_decrypt_block(c, key, completed), chain) == ppen);
    assert(spec_xor(pen_plain, completed) == plast);
    assert((regular_plain + ppen + plast).subrange(0, n) =~= plain);
}

/// AES-CTS decryption undoes AES-CTS encryption of at least one block:
/// the ciphertext has the plaintext's length and decrypts to it.
pub proof fn lemma_aes_cts_roundtrip(key: Seq<u8>, plain: Seq<u8>)
    requires
        spec_block_cipher_inverts(BlockCipher::Aes, key),
        plain.len() >= 16,
    ensures
        spec_aes_cts_encrypt(key, plain) matches Ok((_, ct)) && ct.len() == plain.len()
            && spec_aes_cts_decrypt(key, ct) == Ok::<Seq<u8>, Error>(plain),
{
    let c = BlockCipher::Aes;
    let iv = spec_zeros(16);
    let n = plain.len();
    if n % 16 != 0 {
        lemma_cts_steal_roundtrip(key, plain);
    } else {
        lemma_cbc_encrypt_len(c, key, iv, plain);
        lemma_cbc_roundtrip(c, key, iv, plain);
        if n == 16 {
            assert(spec_zero_pad(plain, 16) == plain);
        } else {
            let e = spec_cbc_encrypt(c, key, iv, plain);
            lemma_swap_twice(e);
        }
    }
}

} // verus!
