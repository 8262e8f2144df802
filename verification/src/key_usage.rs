//! Laws of the key usages of the encryption profiles: which derived key
//! each operation uses (RFC 3961 section 5.3 and RFC 3962: Kc, Ke and Ki
//! from the usage number and the bytes 0x99, 0xAA and 0x55; RFC 8009 for
//! AES-SHA2), and the RFC 4757 message types that RC4-HMAC keys its
//! usages with.

use vstd::prelude::*;

use crate::crypto::{
    spec_ms_msg_type_bytes, spec_ms_usage, spec_signature_key_constant, spec_usage_constant,
    spec_zero_pad, spec_zeros, AesSha1Etype, AesSha2Etype, Des3CbcSha1KdEtype, Rc4HmacEtype,
};
use crate::primitives::{hmac_md5, hmac_sha1, hmac_sha256, hmac_sha384, md5};

verus! {

/// The RFC 3961 derivation input of a key usage: the usage number as four
/// big-endian bytes, then 0x99 for the checksum key Kc, 0xAA for the
/// encryption key Ke or 0x55 for the integrity key Ki.
pub open spec fn spec_key_usage_label(usage: u32, kind: u8) -> Seq<u8> {
    seq![
        (usage / 0x100_0000) as u8,
        ((usage / 0x1_0000) % 0x100) as u8,
        ((usage / 0x100) % 0x100) as u8,
        (usage % 0x100) as u8,
        kind,
    ]
}

proof fn lemma_usage_constant_is_label(usage: u32, kind: u8)
    ensures
        spec_usage_constant(usage, kind) == spec_key_usage_label(usage, kind),
{
    assert((usage >> 24u32) as u8 == (usage / 0x100_0000) as u8) by (bit_vector);
    assert((usage >> 16u32) as u8 == ((usage / 0x1_0000) % 0x100) as u8) by (bit_vector);
    assert((usage >> 8u32) as u8 == ((usage / 0x100) % 0x100) as u8) by (bit_vector);
    assert(usage as u8 == (usage % 0x100) as u8) by (bit_vector);
    assert(spec_usage_constant(usage, kind) =~= spec_key_usage_label(usage, kind));
}

/// An AES-SHA1 checksum (RFC 3962) is the HMAC-SHA1, cut to 96 bits, of
/// the data under the checksum key Kc = DK(key, usage | 0x99).
pub proof fn lemma_aes_sha1_checksum_key(e: AesSha1Etype, key: Seq<u8>, data: Seq<u8>, usage: u32)
    ensures
        e.spec_checksum(key, data, usage) == match e.spec_derive_key(
            key,
            spec_key_usage_label(usage, 0x99),
        ) {
            Err(err) => Err(err),
            Ok(kc) => Ok(hmac_sha1(kc, data).subrange(0, 12)),
        },
{
    lemma_usage_constant_is_label(usage, 0x99);
}

/// An AES-SHA1 message is the AES-CTS encryption of confounder and
/// message under Ke = DK(key, usage | 0xAA), followed by their HMAC-SHA1,
/// cut to 96 bits, under Ki = DK(key, usage | 0x55); a decrypted message
/// was checked and read under the same two keys.
pub proof fn lemma_aes_sha1_message_keys(
    e: AesSha1Etype,
    key: Seq<u8>,
    message: Seq<u8>,
    usage: u32,
    confounder: Seq<u8>,
    ciphertext: Seq<u8>,
)
    ensures
        e.spec_encrypt_message(key, message, usage, confounder) matches Ok(ct) ==> (e.spec_derive_key(
            key,
            spec_key_usage_label(usage, 0xaa),
        ) matches Ok(ke) && e.spec_derive_key(key, spec_key_usage_label(usage, 0x55)) matches Ok(ki)
            && e.spec_encrypt_data(ke, confounder + message) matches Ok((_, x)) && ct == x
            + hmac_sha1(ki, confounder + message).subrange(0, 12)),
        e.spec_decrypt_message(key, ciphertext, usage) matches Ok(m) ==> (e.spec_derive_key(
            key,
            spec_key_usage_label(usage, 0xaa),
        ) matches Ok(ke) && e.spec_decrypt_data(
            ke,
            ciphertext.subrange(0, ciphertext.len() - 12),
        ) matches Ok(p) && e.spec_derive_key(key, spec_key_usage_label(usage, 0x55)) matches Ok(ki)
            && hmac_sha1(ki, p).subrange(0, 12) == ciphertext.subrange(
            ciphertext.len() - 12,
            ciphertext.len() as int,
        ) && m == p.subrange(16, p.len() as int)),
{
    lemma_usage_constant_is_label(usage, 0xaa);
    lemma_usage_constant_is_label(usage, 0x55);
}

/// The HMAC of an AES-SHA2 profile (RFC 8009) cut to its checksum size:
/// HMAC-SHA-256 to 128 bits, HMAC-SHA-384 to 192 bits.
pub open spec fn spec_rfc8009_mac(e: AesSha2Etype, key: Seq<u8>, data: Seq<u8>) -> Seq<u8> {
    match e {
        AesSha2Etype::Aes128 => hmac_sha256(key, data).subrange(0, 16),
        AesSha2Etype::Aes256 => hmac_sha384(key, data).subrange(0, 24),
    }
}

/// An AES-SHA2 checksum (RFC 8009) is the truncated HMAC of the data under
/// Kc = KDF(key, usage | 0x99).
pub proof fn lemma_aes_sha2_checksum_key(e: AesSha2Etype, key: Seq<u8>, data: Seq<u8>, usage: u32)
    ensures
        e.spec_checksum(key, data, usage) == match e.spec_derive_key(
            key,
            spec_key_usage_label(usage, 0x99),
        ) {
            Err(err) => Err(err),
            Ok(kc) => Ok(spec_rfc8009_mac(e, kc, data)),
        },
{
    lemma_usage_constant_is_label(usage, 0x99);
}

/// An AES-SHA2 message is the AES-CTS encryption of confounder and
/// message under Ke = KDF(key, usage | 0xAA), followed by the truncated
/// HMAC, under Ki = KDF(key, usage | 0x55), of a zero block and that
/// encryption; a decrypted message was checked and read under the same
/// two keys.
pub proof fn lemma_aes_sha2_message_keys(
    e: AesSha2Etype,
    key: Seq<u8>,
    message: Seq<u8>,
    usage: u32,
    confounder: Seq<u8>,
    ciphertext: Seq<u8>,
)
    ensures
        e.spec_encrypt_message(key, message, usage, confounder) matches Ok(ct) ==> (e.spec_derive_key(
            key,
            spec_key_usage_label(usage, 0xaa),
        ) matches Ok(ke) && e.spec_derive_key(key, spec_key_usage_label(usage, 0x55)) matches Ok(ki)
            && e.spec_encrypt_data(ke, confounder + message) matches Ok((_, x)) && ct == x
            + spec_rfc8009_mac(e, ki, spec_zeros(16) + x)),
        e.spec_decrypt_message(key, ciphertext, usage) matches Ok(m) ==> ({
            let h = e.spec_hmac_len() as int;
            let x = ciphertext.subrange(0, ciphertext.len() - h);
            &&& e.spec_derive_key(key, spec_key_usage_label(usage, 0xaa)) matches Ok(ke)
            &&& e.spec_decrypt_data(ke, x) matches Ok(p)
            &&& m == p.subrange(16, p.len() as int)
            &&& e.spec_derive_key(key, spec_key_usage_label(usage, 0x55)) matches Ok(ki)
            &&& spec_rfc8009_mac(e, ki, spec_zeros(16) + x) == ciphertext.subrange(
                ciphertext.len() - h,
                ciphertext.len() as int,
            )
        }),
{
    lemma_usage_constant_is_label(usage, 0xaa);
    lemma_usage_constant_is_label(usage, 0x55);
}

/// A DES3 checksum (RFC 3961 hmac-sha1-des3-kd) is the HMAC-SHA1 of the
/// data under Kc = DK(key, usage | 0x99).
pub proof fn lemma_des3_checksum_key(e: Des3CbcSha1KdEtype, key: Seq<u8>, data: Seq<u8>, usage: u32)
    ensures
        e.spec_checksum(key, data, usage) == match e.spec_derive_key(
            key,
            spec_key_usage_label(usage, 0x99),
        ) {
            Err(err) => Err(err),
            Ok(kc) => Ok(hmac_sha1(kc, data)),
        },
{
    lemma_usage_constant_is_label(usage, 0x99);
}

/// A DES3 message is the DES3-CBC encryption of the zero-padded
/// confounder and message under Ke = DK(key, usage | 0xAA), followed by
/// their HMAC-SHA1 under Ki = DK(key, usage | 0x55); a decrypted message
/// was checked and read under the same two keys.
pub proof fn lemma_des3_message_keys(
    e: Des3CbcSha1KdEtype,
    key: Seq<u8>,
    message: Seq<u8>,
    usage: u32,
    confounder: Seq<u8>,
    ciphertext: Seq<u8>,
)
    ensures
        e.spec_encrypt_message(key, message, usage, confounder) matches Ok(ct) ==> ({
            let plain = spec_zero_pad(confounder + message, 8);
            &&& e.spec_derive_key(key, spec_key_usage_label(usage, 0xaa)) matches Ok(ke)
            &&& e.spec_encrypt_data(ke, plain) matches Ok((_, x))
            &&& e.spec_derive_key(key, spec_key_usage_label(usage, 0x55)) matches Ok(ki)
            &&& ct == x + hmac_sha1(ki, plain)
        }),
        e.spec_decrypt_message(key, ciphertext, usage) matches Ok(m) ==> ({
            let n = ciphertext.len() as int;
            &&& e.spec_derive_key(key, spec_key_usage_label(usage, 0xaa)) matches Ok(ke)
            &&& e.spec_decrypt_data(ke, ciphertext.subrange(0, n - 20)) matches Ok(p)
            &&& m == p.subrange(8, p.len() as int)
            &&& e.spec_derive_key(key, spec_key_usage_label(usage, 0x55)) matches Ok(ki)
            &&& hmac_sha1(ki, p) == ciphertext.subrange(n - 20, n)
        }),
{
    lemma_usage_constant_is_label(usage, 0xaa);
    lemma_usage_constant_is_label(usage, 0x55);
}

/// The RFC 4757 message type of a key usage below 128, as the four bytes
/// RC4-HMAC keys it with: usages 3 (AS-REP encrypted part) and 9 (TGS-REP
/// encrypted part under a subkey) are message type 8, usage 23 is 13, and
/// any other usage is its own number.
pub open spec fn spec_rfc4757_message_type(usage: u32) -> Seq<u8> {
    if usage == 3 || usage == 9 {
        seq![8u8, 0u8, 0u8, 0u8]
    } else if usage == 23 {
        seq![13u8, 0u8, 0u8, 0u8]
    } else {
        seq![usage as u8, 0u8, 0u8, 0u8]
    }
}

/// RC4-HMAC keys every usage below 128 with its RFC 4757 message type: the
/// usage key is the HMAC-MD5 of the message type under the key, the
/// checksum the HMAC-MD5, under the signature key, of the MD5 of the
/// message type and the data, and an encrypted message is the HMAC-MD5 of
/// confounder and message under the usage key, followed by their RC4
/// encryption under the HMAC-MD5 of that checksum. Usages 3 and 9
/// map to 8, 23 to 13, and every other usage to itself.
pub proof fn lemma_rc4_message_types(
    e: Rc4HmacEtype,
    key: Seq<u8>,
    data: Seq<u8>,
    usage: u32,
    message: Seq<u8>,
    confounder: Seq<u8>,
)
    ensures
        spec_ms_usage(usage) == if usage == 3 || usage == 9 {
            8u32
        } else if usage == 23 {
            13u32
        } else {
            usage
        },
        usage < 0x80 ==> e.spec_usage_key(key, usage) == hmac_md5(
            key,
            spec_rfc4757_message_type(usage),
        ),
        usage < 0x80 ==> (e.spec_checksum(key, data, usage) matches Ok(c) ==> c == hmac_md5(
            hmac_md5(key, spec_signature_key_constant()),
            md5(spec_rfc4757_message_type(usage) + data),
        )),
        usage < 0x80 ==> (e.spec_encrypt_message(key, message, usage, confounder) matches Ok(ct)
            ==> {
            let k1 = hmac_md5(key, spec_rfc4757_message_type(usage));
            let checksum = hmac_md5(k1, confounder + message);
            &&& crate::crypto::spec_rc4_hmac_crypt(hmac_md5(k1, checksum), confounder + message) matches Ok(x)
            &&& ct == checksum + x
        }),
{
    if usage < 0x80 {
        let u = spec_ms_usage(usage);
        assert(u < 0x80);
        assert(spec_ms_msg_type_bytes(u, 4) =~= spec_rfc4757_message_type(usage)) by {
            assert(spec_ms_msg_type_bytes(u, 4) == seq![u as u8] + spec_zeros(3));
            assert(spec_zeros(3) =~= seq![0u8, 0u8, 0u8]);
        }
    }
}


/// The input of RFC 8009 KDF-HMAC-SHA2 for a label and an output size of
/// `bits` (at most 256) with an empty context: the counter 1 as four
/// big-endian bytes, the label, a zero byte, and `bits` as four big-endian
/// bytes.
pub open spec fn spec_rfc8009_kdf_input(label: Seq<u8>, bits: nat) -> Seq<u8> {
    seq![0u8, 0u8, 0u8, 1u8] + label + seq![0u8] + seq![0u8, 0u8, (bits / 256) as u8, (bits % 256) as u8]
}

/// The full HMAC of an AES-SHA2 profile: HMAC-SHA-256 for AES-128,
/// HMAC-SHA-384 for AES-256.
pub open spec fn spec_rfc8009_hmac(e: AesSha2Etype, key: Seq<u8>, data: Seq<u8>) -> Seq<u8> {
    match e {
        AesSha2Etype::Aes128 => hmac_sha256(key, data),
        AesSha2Etype::Aes256 => hmac_sha384(key, data),
    }
}

/// The AES-SHA2 usage keys (RFC 8009 section 5) are KDF-HMAC-SHA2 of the
/// base key and the usage label, cut to k bits: k is 128 for every key of
/// AES-128; for AES-256 it is 256 for the encryption key Ke (0xAA) and
/// 192 for the checksum key Kc (0x99) and the integrity key Ki (0x55).
pub proof fn lemma_aes_sha2_usage_keys(e: AesSha2Etype, key: Seq<u8>, usage: u32)
    requires
        key.len() == match e {
            AesSha2Etype::Aes128 => 16nat,
            AesSha2Etype::Aes256 => 32nat,
        },
    ensures
        e.spec_derive_key(key, spec_key_usage_label(usage, 0xaa)) == Ok::<Seq<u8>, crate::crypto::Error>({
            let bits: nat = match e {
                AesSha2Etype::Aes128 => 128,
                AesSha2Etype::Aes256 => 256,
            };
            spec_rfc8009_hmac(
                e,
                key,
                spec_rfc8009_kdf_input(spec_key_usage_label(usage, 0xaa), bits),
            ).subrange(0, (bits / 8) as int)
        }),
        e.spec_derive_key(key, spec_key_usage_label(usage, 0x99)) == Ok::<Seq<u8>, crate::crypto::Error>({
            let bits: nat = match e {
                AesSha2Etype::Aes128 => 128,
                AesSha2Etype::Aes256 => 192,
            };
            spec_rfc8009_hmac(
                e,
                key,
                spec_rfc8009_kdf_input(spec_key_usage_label(usage, 0x99), bits),
            ).subrange(0, (bits / 8) as int)
        }),
        e.spec_derive_key(key, spec_key_usage_label(usage, 0x55)) == Ok::<Seq<u8>, crate::crypto::Error>({
            let bits: nat = match e {
                AesSha2Etype::Aes128 => 128,
                AesSha2Etype::Aes256 => 192,
            };
            spec_rfc8009_hmac(
                e,
                key,
                spec_rfc8009_kdf_input(spec_key_usage_label(usage, 0x55), bits),
            ).subrange(0, (bits / 8) as int)
        }),
{
    assert(crate::wire::spec_u32_bytes(1, crate::wire::Endian::Big) =~= seq![0u8, 0u8, 0u8, 1u8]) by {
        assert((1u32 >> 24u32) as u8 == 0u8 && (1u32 >> 16u32) as u8 == 0u8 && (1u32 >> 8u32) as u8
            == 0u8 && 1u32 as u8 == 1u8) by (bit_vector);
    }
    assert(crate::wire::spec_u32_bytes(128, crate::wire::Endian::Big) =~= seq![0u8, 0u8, 0u8, 128u8])
        by {
        assert((128u32 >> 24u32) as u8 == 0u8 && (128u32 >> 16u32) as u8 == 0u8 && (128u32
            >> 8u32) as u8 == 0u8 && 128u32 as u8 == 128u8) by (bit_vector);
    }
    assert(crate::wire::spec_u32_bytes(192, crate::wire::Endian::Big) =~= seq![0u8, 0u8, 0u8, 192u8])
        by {
        assert((192u32 >> 24u32) as u8 == 0u8 && (192u32 >> 16u32) as u8 == 0u8 && (192u32
            >> 8u32) as u8 == 0u8 && 192u32 as u8 == 192u8) by (bit_vector);
    }
    assert(crate::wire::spec_u32_bytes(256, crate::wire::Endian::Big) =~= seq![0u8, 0u8, 1u8, 0u8])
        by {
        assert((256u32 >> 24u32) as u8 == 0u8 && (256u32 >> 16u32) as u8 == 0u8 && (256u32
            >> 8u32) as u8 == 1u8 && 256u32 as u8 == 0u8) by (bit_vector);
    }
    assert(seq![0u8, 0u8, (128nat / 256) as u8, (128nat % 256) as u8] =~= seq![0u8, 0u8, 0u8, 128u8]);
    assert(seq![0u8, 0u8, (192nat / 256) as u8, (192nat % 256) as u8] =~= seq![0u8, 0u8, 0u8, 192u8]);
    assert(seq![0u8, 0u8, (256nat / 256) as u8, (256nat % 256) as u8] =~= seq![0u8, 0u8, 1u8, 0u8]);
    assert(crate::crypto::spec_kerberos_constant().len() == 8);
    let k1 = spec_key_usage_label(usage, 0xaa);
    let k2 = spec_key_usage_label(usage, 0x99);
    let k3 = spec_key_usage_label(usage, 0x55);
    assert(k1.last() == 0xaau8 && k2.last() == 0x99u8 && k3.last() == 0x55u8);
    assert(spec_rfc8009_kdf_input(k1, 128) =~= seq![0u8, 0u8, 0u8, 1u8] + k1 + seq![0u8]
        + Seq::<u8>::empty() + seq![0u8, 0u8, 0u8, 128u8]);
    assert(spec_rfc8009_kdf_input(k2, 128) =~= seq![0u8, 0u8, 0u8, 1u8] + k2 + seq![0u8]
        + Seq::<u8>::empty() + seq![0u8, 0u8, 0u8, 128u8]);
    assert(spec_rfc8009_kdf_input(k3, 128) =~= seq![0u8, 0u8, 0u8, 1u8] + k3 + seq![0u8]
        + Seq::<u8>::empty() + seq![0u8, 0u8, 0u8, 128u8]);
    assert(spec_rfc8009_kdf_input(k1, 256) =~= seq![0u8, 0u8, 0u8, 1u8] + k1 + seq![0u8]
        + Seq::<u8>::empty() + seq![0u8, 0u8, 1u8, 0u8]);
    assert(spec_rfc8009_kdf_input(k2, 192) =~= seq![0u8, 0u8, 0u8, 1u8] + k2 + seq![0u8]
        + Seq::<u8>::empty() + seq![0u8, 0u8, 0u8, 192u8]);
    assert(spec_rfc8009_kdf_input(k3, 192) =~= seq![0u8, 0u8, 0u8, 1u8] + k3 + seq![0u8]
        + Seq::<u8>::empty() + seq![0u8, 0u8, 0u8, 192u8]);
}


/// RFC 3961 DK for the simplified profiles: the label is n-folded to the
/// cipher block (128 bits for AES, 64 bits for triple DES), encrypted under
/// the base key, and stretched by repeated encryption to the key's
/// random-bits size (16 or 32 bytes for AES, 21 bytes for triple DES,
/// which random-to-key then makes a 24-byte key).
pub proof fn lemma_simplified_dk(
    e: AesSha1Etype,
    d: Des3CbcSha1KdEtype,
    key: Seq<u8>,
    label: Seq<u8>,
)
    ensures
        e.spec_derive_key(key, label) matches Ok(k) ==> ({
            &&& crate::crypto::spec_nfold(label, 128) matches Ok(f)
            &&& e.spec_encrypt_data(key, f) matches Ok((_, b))
            &&& k == crate::crypto::spec_dr_stream(
                crate::cipher_modes::BlockCipher::Aes,
                key,
                b,
                match e {
                    AesSha1Etype::Aes128 => 16nat,
                    AesSha1Etype::Aes256 => 32nat,
                },
            )
        }),
        d.spec_derive_key(key, label) matches Ok(k) ==> ({
            &&& crate::crypto::spec_nfold(label, 64) matches Ok(f)
            &&& d.spec_encrypt_data(key, f) matches Ok((_, b))
            &&& crate::crypto::spec_des3_random_to_key(
                crate::crypto::spec_dr_stream(crate::cipher_modes::BlockCipher::Tdes, key, b, 21),
            ) == Ok::<Seq<u8>, crate::crypto::Error>(k)
        }),
{
}

} // verus!
