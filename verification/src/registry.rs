//! Laws of the registered numbers and constants of the encryption
//! profiles: etype and checksum type numbers (RFC 3961 section 8, RFC 3962,
//! RFC 8009, RFC 4757), key, confounder and checksum sizes, default
//! string-to-key parameters, and the ASCII constants the key derivations
//! use.

use vstd::prelude::*;

use crate::crypto::{
    spec_etype_from_checksum_id, spec_etype_from_id, spec_kerberos_constant,
    spec_signature_key_constant, AesSha1Etype, AesSha2Etype, KerberosEtype,
};

verus! {

/// Every supported profile has its registered etype number, checksum type
/// number, key, confounder and checksum sizes and default string-to-key
/// parameters, and each number leads back to its profile.
pub proof fn lemma_etype_registry(e: KerberosEtype, id: i32)
    ensures
        (e.spec_etype_id(), e.spec_checksum_type_id(), e.spec_key_len(), e.spec_confounder_len(),
            e.spec_hmac_len()) == match e {
            KerberosEtype::Sha1(AesSha1Etype::Aes128) => (17i32, 15i32, 16nat, 16nat, 12nat),
            KerberosEtype::Sha1(AesSha1Etype::Aes256) => (18i32, 16i32, 32nat, 16nat, 12nat),
            KerberosEtype::Sha2(AesSha2Etype::Aes128) => (19i32, 19i32, 16nat, 16nat, 16nat),
            KerberosEtype::Sha2(AesSha2Etype::Aes256) => (20i32, 20i32, 32nat, 16nat, 24nat),
            KerberosEtype::Des3CbcSha1Kd(_) => (16i32, 12i32, 24nat, 8nat, 20nat),
            KerberosEtype::Rc4Hmac(_) => (23i32, -138i32, 16nat, 8nat, 16nat),
        },
        e.spec_default_s2kparams() == match e {
            KerberosEtype::Sha1(_) => "00001000"@,
            KerberosEtype::Sha2(_) => "00008000"@,
            _ => Seq::<char>::empty(),
        },
        spec_etype_from_id(e.spec_etype_id()) == Some(e),
        spec_etype_from_checksum_id(e.spec_checksum_type_id()) == Some(e),
        spec_etype_from_id(id) matches Some(f) ==> f.spec_etype_id() == id,
        spec_etype_from_checksum_id(id) matches Some(f) ==> f.spec_checksum_type_id() == id,
{
    reveal_strlit("00001000");
    reveal_strlit("00008000");
    assert("00001000"@ =~= seq!['0', '0', '0', '0', '1', '0', '0', '0']);
    assert("00008000"@ =~= seq!['0', '0', '0', '0', '8', '0', '0', '0']);
}

/// The string-to-key constant is the ASCII of `kerberos` (RFC 3961
/// section 5.3), and the RC4-HMAC signature key constant is the ASCII of
/// `signaturekey` followed by a zero byte (RFC 4757).
pub proof fn lemma_ascii_constants()
    ensures
        spec_kerberos_constant() == "kerberos"@.map_values(|c: char| c as u8),
        spec_signature_key_constant() == "signaturekey"@.map_values(|c: char| c as u8).push(0u8),
{
    reveal_strlit("kerberos");
    reveal_strlit("signaturekey");
    assert(spec_kerberos_constant() =~= "kerberos"@.map_values(|c: char| c as u8));
    assert(spec_signature_key_constant() =~= "signaturekey"@.map_values(|c: char| c as u8).push(
        0u8,
    ));
}

} // verus!
