//! The block ciphers, hashes, HMACs, PBKDF2 and RC4 that the Kerberos
//! profiles are built from, as provided by the RustCrypto crates.
//!
//! Each function here makes one call into an outside crate. What the call
//! computes is not restated: its result is given a name (an uninterpreted
//! spec function of the call's arguments), and the contracts of the
//! profiles are stated over these names. Beside the name, a contract states
//! only the output length that the algorithm fixes and, for the ciphers,
//! that decryption undoes encryption under the same key.

use aes::cipher::{Array, BlockCipherDecrypt, BlockCipherEncrypt, KeyInit};
use hmac::{Hmac, Mac};
use md4::{Digest, Md4};
use md5::Md5;
use rc4::{Rc4, StreamCipher};
use sha1::Sha1;
use sha2::{Sha256, Sha384};
use vstd::prelude::*;

verus! {

/// AES-128 encryption of one 16-byte block under a 16-byte key.
pub uninterp spec fn aes128_encrypt(key: Seq<u8>, block: Seq<u8>) -> Seq<u8>;

/// AES-128 decryption of one 16-byte block under a 16-byte key.
pub uninterp spec fn aes128_decrypt(key: Seq<u8>, block: Seq<u8>) -> Seq<u8>;

/// AES-256 encryption of one 16-byte block under a 32-byte key.
pub uninterp spec fn aes256_encrypt(key: Seq<u8>, block: Seq<u8>) -> Seq<u8>;

/// AES-256 decryption of one 16-byte block under a 32-byte key.
pub uninterp spec fn aes256_decrypt(key: Seq<u8>, block: Seq<u8>) -> Seq<u8>;

/// Triple-DES (EDE, three keys) encryption of one 8-byte block under a
/// 24-byte key.
pub uninterp spec fn tdes_encrypt(key: Seq<u8>, block: Seq<u8>) -> Seq<u8>;

/// Triple-DES (EDE, three keys) decryption of one 8-byte block under a
/// 24-byte key.
pub uninterp spec fn tdes_decrypt(key: Seq<u8>, block: Seq<u8>) -> Seq<u8>;

/// HMAC-SHA1 of `data` under `key`.
pub uninterp spec fn hmac_sha1(key: Seq<u8>, data: Seq<u8>) -> Seq<u8>;

/// HMAC-MD5 of `data` under `key`.
pub uninterp spec fn hmac_md5(key: Seq<u8>, data: Seq<u8>) -> Seq<u8>;

/// HMAC-SHA256 of `data` under `key`.
pub uninterp spec fn hmac_sha256(key: Seq<u8>, data: Seq<u8>) -> Seq<u8>;

/// HMAC-SHA384 of `data` under `key`.
pub uninterp spec fn hmac_sha384(key: Seq<u8>, data: Seq<u8>) -> Seq<u8>;

/// MD4 digest of `data`.
pub uninterp spec fn md4(data: Seq<u8>) -> Seq<u8>;

/// MD5 digest of `data`.
pub uninterp spec fn md5(data: Seq<u8>) -> Seq<u8>;

/// PBKDF2 with HMAC-SHA1: `len` bytes from `password`, `salt` and `rounds`.
pub uninterp spec fn pbkdf2_sha1(password: Seq<u8>, salt: Seq<u8>, rounds: u32, len: nat) -> Seq<
    u8,
>;

/// PBKDF2 with HMAC-SHA256: `len` bytes from `password`, `salt` and `rounds`.
pub uninterp spec fn pbkdf2_sha256(password: Seq<u8>, salt: Seq<u8>, rounds: u32, len: nat) -> Seq<
    u8,
>;

/// PBKDF2 with HMAC-SHA384: `len` bytes from `password`, `salt` and `rounds`.
pub uninterp spec fn pbkdf2_sha384(password: Seq<u8>, salt: Seq<u8>, rounds: u32, len: nat) -> Seq<
    u8,
>;

/// RC4 applied to `data` under `key`: `data` XORed with the key stream.
pub uninterp spec fn rc4(key: Seq<u8>, data: Seq<u8>) -> Seq<u8>;

/// `aes::Aes128` `encrypt_block`: the block encrypted under the key; AES-128
/// decryption under the same key gives the block back; for this key, every
/// block encrypts to a block that its decryption turns back into it.
#[verifier::external_body]
pub(crate) fn aes128_encrypt_block(key: &[u8], block: &[u8]) -> (r: Vec<u8>)
    requires
        key@.len() == 16,
        block@.len() == 16,
    ensures
        r@ == aes128_encrypt(key@, block@),
        r@.len() == 16 && forall|b: Seq<u8>|
            b.len() == 16 ==> (#[trigger] aes128_encrypt(key@, b)).len() == 16 && aes128_decrypt(
                key@,
                aes128_encrypt(key@, b),
            ) == b,
        aes128_decrypt(key@, r@) == block@,
{
    let key: [u8; 16] = key.try_into().unwrap();
    let cipher = aes::Aes128::new(&Array::from(key));
    let block: [u8; 16] = block.try_into().unwrap();
    let mut block = Array::from(block);
    cipher.encrypt_block(&mut block);
    block.to_vec()
}

/// `aes::Aes128` `decrypt_block`: the block decrypted under the key; AES-128
/// encryption under the same key gives the block back; for this key, every
/// block encrypts to a block that its decryption turns back into it.
#[verifier::external_body]
pub(crate) fn aes128_decrypt_block(key: &[u8], block: &[u8]) -> (r: Vec<u8>)
    requires
        key@.len() == 16,
        block@.len() == 16,
    ensures
        r@ == aes128_decrypt(key@, block@),
        r@.len() == 16 && forall|b: Seq<u8>|
            b.len() == 16 ==> (#[trigger] aes128_encrypt(key@, b)).len() == 16 && aes128_decrypt(
                key@,
                aes128_encrypt(key@, b),
            ) == b,
        aes128_encrypt(key@, r@) == block@,
{
    let key: [u8; 16] = key.try_into().unwrap();
    let cipher = aes::Aes128::new(&Array::from(key));
    let block: [u8; 16] = block.try_into().unwrap();
    let mut block = Array::from(block);
    cipher.decrypt_block(&mut block);
    block.to_vec()
}

/// `aes::Aes256` `encrypt_block`: the block encrypted under the key; AES-256
/// decryption under the same key gives the block back; for this key, every
/// block encrypts to a block that its decryption turns back into it.
#[verifier::external_body]
pub(crate) fn aes256_encrypt_block(key: &[u8], block: &[u8]) -> (r: Vec<u8>)
    requires
        key@.len() == 32,
        block@.len() == 16,
    ensures
        r@ == aes256_encrypt(key@, block@),
        r@.len() == 16 && forall|b: Seq<u8>|
            b.len() == 16 ==> (#[trigger] aes256_encrypt(key@, b)).len() == 16 && aes256_decrypt(
                key@,
                aes256_encrypt(key@, b),
            ) == b,
        aes256_decrypt(key@, r@) == block@,
{
    let key: [u8; 32] = key.try_into().unwrap();
    let cipher = aes::Aes256::new(&Array::from(key));
    let block: [u8; 16] = block.try_into().unwrap();
    let mut block = Array::from(block);
    cipher.encrypt_block(&mut block);
    block.to_vec()
}

/// `aes::Aes256` `decrypt_block`: the block decrypted under the key; AES-256
/// encryption under the same key gives the block back; for this key, every
/// block encrypts to a block that its decryption turns back into it.
#[verifier::external_body]
pub(crate) fn aes256_decrypt_block(key: &[u8], block: &[u8]) -> (r: Vec<u8>)
    requires
        key@.len() == 32,
        block@.len() == 16,
    ensures
        r@ == aes256_decrypt(key@, block@),
        r@.len() == 16 && forall|b: Seq<u8>|
            b.len() == 16 ==> (#[trigger] aes256_encrypt(key@, b)).len() == 16 && aes256_decrypt(
                key@,
                aes256_encrypt(key@, b),
            ) == b,
        aes256_encrypt(key@, r@) == block@,
{
    let key: [u8; 32] = key.try_into().unwrap();
    let cipher = aes::Aes256::new(&Array::from(key));
    let block: [u8; 16] = block.try_into().unwrap();
    let mut block = Array::from(block);
    cipher.decrypt_block(&mut block);
    block.to_vec()
}

/// `des::TdesEde3` `encrypt_block`: the block encrypted under the key;
/// decryption under the same key gives the block back; for this key, every
/// block encrypts to a block that its decryption turns back into it.
#[verifier::external_body]
pub(crate) fn tdes_encrypt_block(key: &[u8], block: &[u8]) -> (r: Vec<u8>)
    requires
        key@.len() == 24,
        block@.len() == 8,
    ensures
        r@ == tdes_encrypt(key@, block@),
        r@.len() == 8 && forall|b: Seq<u8>|
            b.len() == 8 ==> (#[trigger] tdes_encrypt(key@, b)).len() == 8 && tdes_decrypt(
                key@,
                tdes_encrypt(key@, b),
            ) == b,
        tdes_decrypt(key@, r@) == block@,
{
    let key: [u8; 24] = key.try_into().unwrap();
    let cipher = des::TdesEde3::new(&Array::from(key));
    let block: [u8; 8] = block.try_into().unwrap();
    let mut block = Array::from(block);
    cipher.encrypt_block(&mut block);
    block.to_vec()
}

/// `des::TdesEde3` `decrypt_block`: the block decrypted under the key;
/// encryption under the same key gives the block back; for this key, every
/// block encrypts to a block that its decryption turns back into it.
#[verifier::external_body]
pub(crate) fn tdes_decrypt_block(key: &[u8], block: &[u8]) -> (r: Vec<u8>)
    requires
        key@.len() == 24,
        block@.len() == 8,
    ensures
        r@ == tdes_decrypt(key@, block@),
        r@.len() == 8 && forall|b: Seq<u8>|
            b.len() == 8 ==> (#[trigger] tdes_encrypt(key@, b)).len() == 8 && tdes_decrypt(
                key@,
                tdes_encrypt(key@, b),
            ) == b,
        tdes_encrypt(key@, r@) == block@,
{
    let key: [u8; 24] = key.try_into().unwrap();
    let cipher = des::TdesEde3::new(&Array::from(key));
    let block: [u8; 8] = block.try_into().unwrap();
    let mut block = Array::from(block);
    cipher.decrypt_block(&mut block);
    block.to_vec()
}

/// `hmac::Hmac<Sha1>`: the 20-byte HMAC-SHA1 tag; any key length is
/// accepted.
#[verifier::external_body]
pub(crate) fn hmac_sha1_tag(key: &[u8], data: &[u8]) -> (r: Vec<u8>)
    ensures
        r@ == hmac_sha1(key@, data@),
        r@.len() == 20,
{
    let mut mac = <Hmac<Sha1> as KeyInit>::new_from_slice(key).unwrap();
    mac.update(data);
    mac.finalize().into_bytes().to_vec()
}

/// `hmac::Hmac<Md5>`: the 16-byte HMAC-MD5 tag; any key length is accepted.
#[verifier::external_body]
pub(crate) fn hmac_md5_tag(key: &[u8], data: &[u8]) -> (r: Vec<u8>)
    ensures
        r@ == hmac_md5(key@, data@),
        r@.len() == 16,
{
    let mut mac = <Hmac<Md5> as KeyInit>::new_from_slice(key).unwrap();
    mac.update(data);
    mac.finalize().into_bytes().to_vec()
}

/// `hmac::Hmac<Sha256>`: the 32-byte HMAC-SHA256 tag; any key length is
/// accepted.
#[verifier::external_body]
pub(crate) fn hmac_sha256_tag(key: &[u8], data: &[u8]) -> (r: Vec<u8>)
    ensures
        r@ == hmac_sha256(key@, data@),
        r@.len() == 32,
{
    let mut mac = <Hmac<Sha256> as KeyInit>::new_from_slice(key).unwrap();
    mac.update(data);
    mac.finalize().into_bytes().to_vec()
}

/// `hmac::Hmac<Sha384>`: the 48-byte HMAC-SHA384 tag; any key length is
/// accepted.
#[verifier::external_body]
pub(crate) fn hmac_sha384_tag(key: &[u8], data: &[u8]) -> (r: Vec<u8>)
    ensures
        r@ == hmac_sha384(key@, data@),
        r@.len() == 48,
{
    let mut mac = <Hmac<Sha384> as KeyInit>::new_from_slice(key).unwrap();
    mac.update(data);
    mac.finalize().into_bytes().to_vec()
}

/// `md4::Md4::digest`: the 16-byte MD4 digest.
#[verifier::external_body]
pub(crate) fn md4_digest(data: &[u8]) -> (r: Vec<u8>)
    ensures
        r@ == md4(data@),
        r@.len() == 16,
{
    Md4::digest(data).to_vec()
}

/// `md5::Md5::digest`: the 16-byte MD5 digest.
#[verifier::external_body]
pub(crate) fn md5_digest(data: &[u8]) -> (r: Vec<u8>)
    ensures
        r@ == md5(data@),
        r@.len() == 16,
{
    Md5::digest(data).to_vec()
}

/// `pbkdf2::pbkdf2_hmac::<Sha1>` filling `len` bytes.
#[verifier::external_body]
pub(crate) fn pbkdf2_hmac_sha1(password: &[u8], salt: &[u8], rounds: u32, len: usize) -> (r: Vec<u8>)
    ensures
        r@ == pbkdf2_sha1(password@, salt@, rounds, len as nat),
        r@.len() == len,
{
    let mut out = vec![0u8; len];
    pbkdf2::pbkdf2_hmac::<Sha1>(password, salt, rounds, &mut out);
    out
}

/// `pbkdf2::pbkdf2_hmac::<Sha256>` filling `len` bytes.
#[verifier::external_body]
pub(crate) fn pbkdf2_hmac_sha256(password: &[u8], salt: &[u8], rounds: u32, len: usize) -> (r: Vec<u8>)
    ensures
        r@ == pbkdf2_sha256(password@, salt@, rounds, len as nat),
        r@.len() == len,
{
    let mut out = vec![0u8; len];
    pbkdf2::pbkdf2_hmac::<Sha256>(password, salt, rounds, &mut out);
    out
}

/// `pbkdf2::pbkdf2_hmac::<Sha384>` filling `len` bytes.
#[verifier::external_body]
pub(crate) fn pbkdf2_hmac_sha384(password: &[u8], salt: &[u8], rounds: u32, len: usize) -> (r: Vec<u8>)
    ensures
        r@ == pbkdf2_sha384(password@, salt@, rounds, len as nat),
        r@.len() == len,
{
    let mut out = vec![0u8; len];
    pbkdf2::pbkdf2_hmac::<Sha384>(password, salt, rounds, &mut out);
    out
}

/// `rc4::Rc4` `new_from_slice` and `apply_keystream`: `None` exactly when the
/// key is not 1 to 256 bytes long; otherwise the data XORed with the key
/// stream, which has the data's length, and which the same call turns back
/// into the data.
#[verifier::external_body]
pub(crate) fn rc4_apply(key: &[u8], data: &[u8]) -> (r: Option<Vec<u8>>)
    ensures
        r is Some <==> 1 <= key@.len() <= 256,
        r matches Some(out) ==> out@ == rc4(key@, data@) && out@.len() == data@.len() && rc4(
            key@,
            out@,
        ) == data@,
{
    match <Rc4 as rc4::KeyInit>::new_from_slice(key) {
        Ok(mut cipher) => {
            let mut out = data.to_vec();
            cipher.apply_keystream(&mut out);
            Some(out)
        },
        Err(_) => None,
    }
}

} // verus!
