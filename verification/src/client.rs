//! Kerberos client pieces that do not talk to a KDC: principal names,
//! password salts, reply-key selection and credential-cache conversion.

use vstd::prelude::*;
use vstd::utf8::encode_utf8;

pub mod discovery;
pub mod etype_info;
pub mod flows;
pub mod ap_req;
pub mod kdc_rep;
pub mod kdc_req;
pub mod login;
pub mod principal;
pub mod referral;
pub mod reply;
pub mod request;
pub mod session;
pub mod transport;

pub use self::principal::{Principal, PrincipalModel};
pub use self::reply::{BuiltAsReq, BuiltTgsReq, KdcReplyParts};
pub use self::request::{ApReqOptions, AsReqOptions, Checksum, KpasswdRequestOptions, PaData, TgsReqOptions};
pub use self::transport::{KdcEndpoint, KdcEndpointSource, KdcProtocol, TokioKdcTransport};
use crate::ccache;
use crate::crypto::{hex_encode, spec_bytes_result, spec_etype_from_id, spec_hex_encode, KerberosEtype};
use crate::keytab::{spec_newest_match, EncryptionKey, EncryptionKeyModel, EntryModel, Keytab};
use crate::text::{concat_after, copy_string, copy_strings, spec_concat, spec_join, spec_str_views};
use crate::wire::{extend_bytes, push_i32, spec_i32_bytes, Endian};

verus! {

/// Kerberos client error.
#[derive(Debug)]
pub enum Error {
    /// A human-readable Kerberos principal name was invalid.
    InvalidPrincipalName {
        /// The rejected text.
        value: String,
        /// Why it was rejected.
        reason: &'static str,
    },
    /// The encryption type is not implemented.
    UnsupportedEtype(i32),
    /// A time could not be represented where it is needed.
    TimeOverflow,
    /// Crypto operation failed.
    Crypto(crate::crypto::Error),
    /// Keytab operation failed.
    Keytab(crate::keytab::Error),
    /// None of the requested encryption types can derive a
    /// preauthentication key.
    NoSupportedPreauthEtype {
        /// The requested encryption types.
        requested: Vec<i32>,
    },
    /// A client operation needs password or keytab credentials.
    NoClientCredentials,
    /// A client operation needs a non-empty client principal name.
    MissingClientName,
    /// A client operation needs a non-empty client realm.
    MissingClientRealm,
    /// The KDC-REP client principal did not match the KDC-REQ.
    ClientPrincipalMismatch {
        /// Expected request client.
        expected: String,
        /// Actual reply client.
        actual: String,
    },
    /// The KDC-REP service principal did not match the KDC-REQ.
    ServicePrincipalMismatch {
        /// Expected request service.
        expected: String,
        /// Actual reply service.
        actual: String,
    },
    /// The KDC-REP nonce did not match the KDC-REQ nonce.
    NonceMismatch {
        /// Expected request nonce.
        expected: u32,
        /// Actual reply nonce.
        actual: u32,
    },
    /// A request asked for no encryption types.
    EmptyEtypes,
    /// The KDC answered with a KRB-ERROR.
    Kdc {
        /// Kerberos error code.
        error_code: i32,
    },
    /// A login step was given an event its state does not expect.
    UnexpectedLoginEvent,
    /// A referral ticket pointed back at the realm that issued it.
    InvalidReferralTicket {
        /// Referral ticket service name.
        service: String,
    },
    /// The referral chain exceeded the configured maximum depth.
    MaxReferralDepth {
        /// Maximum number of referrals followed.
        max: usize,
    },
    /// A ticket's DER could not be read.
    InvalidTicket,
    /// A KDC reply, or its decrypted part, could not be read.
    InvalidReply,
    /// The reply key's type differs from that of the encrypted part.
    KeyEtypeMismatch {
        /// Supplied key encryption type.
        key_etype: i32,
        /// Encrypted part encryption type.
        encrypted_data_etype: i32,
    },
    /// A message is too long to encrypt.
    MessageTooLarge,
    /// KDC DNS lookup is disabled and no configured KDC exists for the realm.
    NoConfiguredKdc {
        /// The client realm.
        realm: String,
    },
}

// ---------------------------------------------------------------------------
// Salts and reply keys

/// The default Kerberos password salt: the realm, then every component.
pub open spec fn spec_default_password_salt(p: PrincipalModel) -> Seq<char> {
    p.realm + spec_concat(p.components)
}

/// Return the default Kerberos password salt for a principal.
pub fn default_password_salt(client: &Principal) -> (r: String)
    ensures
        r@ == spec_default_password_salt(client@),
{
    concat_after(&client.realm, &client.components)
}

/// KDC hint for deriving or selecting a preauthentication key.
#[derive(Clone, Debug, Eq, PartialEq)]
pub struct PreauthKeyInfo {
    /// Encryption type requested by the KDC.
    pub etype: i32,
    /// Optional password salt.
    pub salt: Option<String>,
    /// Optional string-to-key parameters as raw bytes.
    pub s2kparams: Option<Vec<u8>>,
}

/// The salt a password key is derived with: the KDC's, else the default.
pub open spec fn spec_reply_salt(client: PrincipalModel, info: PreauthKeyInfo) -> Seq<char> {
    match info.salt {
        Some(s) => s@,
        None => spec_default_password_salt(client),
    }
}

/// The string-to-key parameters a password key is derived with: the KDC's
/// bytes in lowercase hex, else the encryption type's default.
pub open spec fn spec_reply_s2kparams(e: KerberosEtype, info: PreauthKeyInfo) -> Seq<char> {
    match info.s2kparams {
        Some(b) => spec_hex_encode(b@),
        None => e.spec_default_s2kparams(),
    }
}

/// Derive a reply key from password credentials and a preauthentication hint.
pub fn derive_password_reply_key(client: &Principal, password: &[u8], key_info: &PreauthKeyInfo) -> (r:
    Result<EncryptionKey, Error>)
    requires
        spec_etype_from_id(key_info.etype) matches Some(e) ==> e.spec_string_to_key_fits(
            password@,
            encode_utf8(spec_reply_salt(client@, *key_info)),
        ),
    ensures
        match spec_etype_from_id(key_info.etype) {
            None => r matches Err(Error::UnsupportedEtype(t)) && t == key_info.etype,
            Some(e) => match e.spec_string_to_key(
                password@,
                encode_utf8(spec_reply_salt(client@, *key_info)),
                encode_utf8(spec_reply_s2kparams(e, *key_info)),
            ) {
                Ok(k) => r matches Ok(key) && key@ == (EncryptionKeyModel {
                    etype: key_info.etype,
                    value: k,
                }),
                Err(ce) => r matches Err(Error::Crypto(c)) && c == ce,
            },
        },
{
    let etype = match KerberosEtype::from_etype_id(key_info.etype) {
        Some(e) => e,
        None => return Err(Error::UnsupportedEtype(key_info.etype)),
    };
    let salt = match &key_info.salt {
        Some(s) => copy_string(s),
        None => default_password_salt(client),
    };
    let s2kparams = match &key_info.s2kparams {
        Some(bytes) => hex_encode(bytes.as_slice()),
        None => etype.default_s2kparams().to_owned(),
    };
    match etype.string_to_key(password, salt.as_str().as_bytes(), s2kparams.as_str()) {
        Ok(value) => Ok(EncryptionKey { etype: key_info.etype, value }),
        Err(e) => Err(Error::Crypto(e)),
    }
}

fn component_strs(components: &Vec<String>) -> (r: Vec<&str>)
    ensures
        spec_str_views(r@) == crate::text::spec_string_views(components@),
{
    let mut out: Vec<&str> = Vec::new();
    let mut i: usize = 0;
    while i < components.len()
        invariant
            i <= components@.len(),
            out@.len() == i,
            forall|j: int| 0 <= j < i ==> (#[trigger] out@[j])@ == components@[j]@,
        decreases components@.len() - i,
    {
        out.push(components[i].as_str());
        i = i + 1;
    }
    assert(spec_str_views(out@) =~= crate::text::spec_string_views(components@));
    out
}

fn copy_key(key: &EncryptionKey) -> (r: EncryptionKey)
    ensures
        r@ == key@,
{
    EncryptionKey { etype: key.etype, value: vstd::slice::slice_to_vec(key.value.as_slice()) }
}

/// Select a reply key from a keytab using a preauthentication hint: the
/// newest key for the client with the hinted encryption type, any kvno.
pub fn select_keytab_reply_key(keytab: &Keytab, client: &Principal, key_info: &PreauthKeyInfo) -> (r:
    Result<(EncryptionKey, u32), Error>)
    ensures
        match spec_newest_match(
            keytab@.entries,
            client@.components,
            client@.realm,
            0,
            key_info.etype,
        ) {
            Some(i) => r matches Ok((key, kvno)) && key@ == keytab@.entries[i].key && kvno
                == keytab@.entries[i].kvno,
            None => r matches Err(
                Error::Keytab(
                    crate::keytab::Error::NoMatchingKey { principal, realm, kvno, etype },
                ),
            ) && principal@ == spec_join(client@.components, seq!['/']) && realm@ == client@.realm
                && kvno == 0 && etype == key_info.etype,
        },
{
    let components = component_strs(&client.components);
    match keytab.find_key(components.as_slice(), client.realm.as_str(), 0, key_info.etype) {
        Ok((key, kvno)) => Ok((copy_key(key), kvno)),
        Err(e) => Err(Error::Keytab(e)),
    }
}

/// Select a reply key from a keytab: the newest key of the client with
/// the encryption type and key version number (`0` for any).
pub fn select_keytab_reply_key_for_etype(keytab: &Keytab, client: &Principal, kvno: u32, etype: i32) -> (r:
    Result<(EncryptionKey, u32), Error>)
    ensures
        match spec_newest_match(keytab@.entries, client@.components, client@.realm, kvno, etype) {
            Some(i) => r matches Ok((key, v)) && key@ == keytab@.entries[i].key && v
                == keytab@.entries[i].kvno,
            None => r matches Err(
                Error::Keytab(
                    crate::keytab::Error::NoMatchingKey { principal, realm, kvno: k, etype: t },
                ),
            ) && principal@ == spec_join(client@.components, seq!['/']) && realm@ == client@.realm
                && k == kvno && t == etype,
        },
{
    let components = component_strs(&client.components);
    match keytab.find_key(components.as_slice(), client.realm.as_str(), kvno, etype) {
        Ok((key, v)) => Ok((copy_key(key), v)),
        Err(e) => Err(Error::Keytab(e)),
    }
}

/// The first requested encryption type that can derive a key.
pub open spec fn spec_first_supported(requested: Seq<i32>) -> Option<i32>
    decreases requested.len(),
{
    if requested.len() == 0 {
        None
    } else if spec_etype_from_id(requested[0]) is Some {
        Some(requested[0])
    } else {
        spec_first_supported(requested.drop_first())
    }
}

/// The key hint assumed when preauthenticating without asking the KDC:
/// the first supported requested encryption type, with the default salt
/// and parameters.
pub fn assumed_preauth_key_info(requested_etypes: &[i32]) -> (r: Result<PreauthKeyInfo, Error>)
    ensures
        match spec_first_supported(requested_etypes@) {
            Some(e) => r matches Ok(info) && info.etype == e && info.salt is None && info.s2kparams is None,
            None => r matches Err(Error::NoSupportedPreauthEtype { requested }) && requested@
                == requested_etypes@,
        },
{
    let mut i: usize = 0;
    assert(requested_etypes@.subrange(0, requested_etypes@.len() as int) =~= requested_etypes@);
    while i < requested_etypes.len()
        invariant
            i <= requested_etypes@.len(),
            spec_first_supported(requested_etypes@) == spec_first_supported(
                requested_etypes@.subrange(i as int, requested_etypes@.len() as int),
            ),
        decreases requested_etypes@.len() - i,
    {
        let ghost rest = requested_etypes@.subrange(i as int, requested_etypes@.len() as int);
        assert(rest.drop_first() =~= requested_etypes@.subrange(i + 1, requested_etypes@.len() as int));
        let etype = requested_etypes[i];
        if KerberosEtype::from_etype_id(etype).is_some() {
            return Ok(PreauthKeyInfo { etype, salt: None, s2kparams: None });
        }
        i = i + 1;
    }
    Err(Error::NoSupportedPreauthEtype { requested: vstd::slice::slice_to_vec(requested_etypes) })
}

/// Whether an encryption type can derive keys here.
pub open spec fn spec_supported(etype: i32) -> bool {
    spec_etype_from_id(etype) is Some
}

/// The key of the first requested, supported encryption type that the
/// keytab holds for the client (newest key, any version), with the index of
/// its entry.
pub open spec fn spec_assumed_keytab_entry(
    entries: Seq<EntryModel>,
    client: PrincipalModel,
    requested: Seq<i32>,
) -> Option<int>
    decreases requested.len(),
{
    if requested.len() == 0 {
        None
    } else if spec_supported(requested[0]) && spec_newest_match(
        entries,
        client.components,
        client.realm,
        0,
        requested[0],
    ) is Some {
        spec_newest_match(entries, client.components, client.realm, 0, requested[0])
    } else {
        spec_assumed_keytab_entry(entries, client, requested.drop_first())
    }
}

/// Select a reply key from a keytab without asking the KDC: the newest key
/// for the first requested, supported encryption type the keytab holds for
/// the client.
pub fn select_assumed_keytab_reply_key(keytab: &Keytab, client: &Principal, requested_etypes: &[i32]) -> (r:
    Result<(EncryptionKey, u32), Error>)
    ensures
        match spec_assumed_keytab_entry(keytab@.entries, client@, requested_etypes@) {
            Some(i) => r matches Ok((key, v)) && key@ == keytab@.entries[i].key && v
                == keytab@.entries[i].kvno,
            None => r matches Err(Error::NoSupportedPreauthEtype { requested }) && requested@
                == requested_etypes@,
        },
{
    let mut i: usize = 0;
    assert(requested_etypes@.subrange(0, requested_etypes@.len() as int) =~= requested_etypes@);
    while i < requested_etypes.len()
        invariant
            i <= requested_etypes@.len(),
            spec_assumed_keytab_entry(keytab@.entries, client@, requested_etypes@)
                == spec_assumed_keytab_entry(
                keytab@.entries,
                client@,
                requested_etypes@.subrange(i as int, requested_etypes@.len() as int),
            ),
        decreases requested_etypes@.len() - i,
    {
        let ghost rest = requested_etypes@.subrange(i as int, requested_etypes@.len() as int);
        assert(rest.drop_first() =~= requested_etypes@.subrange(i + 1, requested_etypes@.len() as int));
        let etype = requested_etypes[i];
        if KerberosEtype::from_etype_id(etype).is_some() {
            match select_keytab_reply_key_for_etype(keytab, client, 0, etype) {
                Ok(found) => {
                    return Ok(found);
                },
                Err(_) => {},
            }
        }
        i = i + 1;
    }
    Err(Error::NoSupportedPreauthEtype { requested: vstd::slice::slice_to_vec(requested_etypes) })
}

/// A key hint as plain values.
pub open spec fn spec_key_info(info: PreauthKeyInfo) -> (i32, Option<Seq<char>>, Option<Seq<u8>>) {
    (
        info.etype,
        match info.salt {
            Some(s) => Some(s@),
            None => None,
        },
        match info.s2kparams {
            Some(b) => Some(b@),
            None => None,
        },
    )
}

/// The index of the first hint for `etype`, at or after `k`.
pub open spec fn spec_info_for(infos: Seq<PreauthKeyInfo>, etype: i32, k: int) -> Option<int>
    decreases infos.len() - k,
{
    if k < 0 || k >= infos.len() {
        None
    } else if infos[k].etype == etype {
        Some(k)
    } else {
        spec_info_for(infos, etype, k + 1)
    }
}

/// The hint for the first requested, supported encryption type that the KDC
/// gave a hint for.
pub open spec fn spec_hinted_info(infos: Seq<PreauthKeyInfo>, requested: Seq<i32>) -> Option<int>
    decreases requested.len(),
{
    if requested.len() == 0 {
        None
    } else if spec_supported(requested[0]) && spec_info_for(infos, requested[0], 0) is Some {
        spec_info_for(infos, requested[0], 0)
    } else {
        spec_hinted_info(infos, requested.drop_first())
    }
}

fn copy_key_info(info: &PreauthKeyInfo) -> (r: PreauthKeyInfo)
    ensures
        spec_key_info(r) == spec_key_info(*info),
{
    PreauthKeyInfo {
        etype: info.etype,
        salt: match &info.salt {
            Some(s) => Some(copy_string(s)),
            None => None,
        },
        s2kparams: match &info.s2kparams {
            Some(b) => Some(vstd::slice::slice_to_vec(b.as_slice())),
            None => None,
        },
    }
}

fn info_for(infos: &[PreauthKeyInfo], etype: i32) -> (r: Option<usize>)
    ensures
        match r {
            Some(j) => j < infos@.len() && spec_info_for(infos@, etype, 0) == Some(j as int),
            None => spec_info_for(infos@, etype, 0) is None,
        },
{
    let mut k: usize = 0;
    while k < infos.len()
        invariant
            k <= infos@.len(),
            spec_info_for(infos@, etype, 0) == spec_info_for(infos@, etype, k as int),
        decreases infos@.len() - k,
    {
        if infos[k].etype == etype {
            return Some(k);
        }
        k = k + 1;
    }
    None
}

/// Select the preauthentication key hint for an AS exchange from the KDC's
/// hints: the hint for the first requested, supported encryption type the
/// KDC gave one for; without any hint, the defaults for the first
/// requested, supported type; else `NoSupportedPreauthEtype`.
pub fn select_preauth_key_info(preauth_key_info: &[PreauthKeyInfo], requested_etypes: &[i32]) -> (r:
    Result<PreauthKeyInfo, Error>)
    ensures
        match spec_hinted_info(preauth_key_info@, requested_etypes@) {
            Some(k) => r matches Ok(x) && spec_key_info(x) == spec_key_info(preauth_key_info@[k]),
            None => if preauth_key_info@.len() == 0 && spec_first_supported(requested_etypes@) is Some {
                r matches Ok(x) && x.etype == spec_first_supported(requested_etypes@)->Some_0
                    && x.salt is None && x.s2kparams is None
            } else {
                r matches Err(Error::NoSupportedPreauthEtype { requested }) && requested@
                    == requested_etypes@
            },
        },
{
    let mut i: usize = 0;
    assert(requested_etypes@.subrange(0, requested_etypes@.len() as int) =~= requested_etypes@);
    while i < requested_etypes.len()
        invariant
            i <= requested_etypes@.len(),
            spec_hinted_info(preauth_key_info@, requested_etypes@) == spec_hinted_info(
                preauth_key_info@,
                requested_etypes@.subrange(i as int, requested_etypes@.len() as int),
            ),
        decreases requested_etypes@.len() - i,
    {
        let ghost rest = requested_etypes@.subrange(i as int, requested_etypes@.len() as int);
        assert(rest.drop_first() =~= requested_etypes@.subrange(i + 1, requested_etypes@.len() as int));
        let etype = requested_etypes[i];
        if KerberosEtype::from_etype_id(etype).is_some() {
            match info_for(preauth_key_info, etype) {
                Some(k) => {
                    assert(rest.len() > 0);
                    assert(rest[0] == etype);
                    assert(spec_supported(rest[0]));
                    assert(spec_info_for(preauth_key_info@, rest[0], 0) == Some(k as int));
                    assert(spec_hinted_info(preauth_key_info@, rest) == Some(k as int));
                    return Ok(copy_key_info(&preauth_key_info[k]));
                },
                None => {},
            }
        }
        i = i + 1;
    }
    if preauth_key_info.len() == 0 {
        return assumed_preauth_key_info(requested_etypes);
    }
    Err(Error::NoSupportedPreauthEtype { requested: vstd::slice::slice_to_vec(requested_etypes) })
}

/// Whether a principal has no name: no components, or an empty one.
pub open spec fn spec_name_missing(p: PrincipalModel) -> bool {
    p.components.len() == 0 || exists|i: int| 0 <= i < p.components.len() && (#[trigger] p.components[i]).len() == 0
}

/// Check that a client can run: a non-empty principal name and realm,
/// credentials or a ticket-granting session, and, with KDC DNS lookup off,
/// a configured KDC for the client realm.
pub fn validate_client_configuration(
    client: &Principal,
    has_credentials: bool,
    has_tgt: bool,
    config: &crate::config::Config,
) -> (r: Result<(), Error>)
    ensures
        spec_name_missing(client@) ==> r matches Err(Error::MissingClientName),
        !spec_name_missing(client@) ==> if client@.realm.len() == 0 {
            r matches Err(Error::MissingClientRealm)
        } else if !has_credentials && !has_tgt {
            r matches Err(Error::NoClientCredentials)
        } else if !config.libdefaults.dns_lookup_kdc && !(crate::config::sections::spec_realm_named(
            config@.realms,
            client@.realm,
        ) matches Some(m) && m.kdc.len() > 0) {
            r matches Err(Error::NoConfiguredKdc { realm }) && realm@ == client@.realm
        } else {
            r is Ok
        },
{
    let mut i: usize = 0;
    while i < client.components.len()
        invariant
            i <= client.components@.len(),
            forall|j: int| 0 <= j < i ==> (#[trigger] client@.components[j]).len() > 0,
        decreases client.components@.len() - i,
    {
        if client.components[i].as_str().unicode_len() == 0 {
            assert(client@.components[i as int].len() == 0);
            return Err(Error::MissingClientName);
        }
        i = i + 1;
    }
    if client.components.len() == 0 {
        return Err(Error::MissingClientName);
    }
    if client.realm.as_str().unicode_len() == 0 {
        return Err(Error::MissingClientRealm);
    }
    if !has_credentials && !has_tgt {
        return Err(Error::NoClientCredentials);
    }
    if !config.libdefaults.dns_lookup_kdc {
        match config.realm(client.realm.as_str()) {
            None => {
                return Err(Error::NoConfiguredKdc { realm: copy_string(&client.realm) });
            },
            Some(entry) => if entry.kdc.len() == 0 {
                return Err(Error::NoConfiguredKdc { realm: copy_string(&client.realm) });
            },
        }
    }
    Ok(())
}

/// Raw KDC option mask for `renewable` in RFC 4120 bit-string order.
pub const KDC_OPTION_RENEWABLE: u32 = 0x0080_0000;

/// Raw KDC option mask for `canonicalize` in RFC 4120 bit-string order.
pub const KDC_OPTION_CANONICALIZE: u32 = 0x0001_0000;

/// Raw KDC option mask for `cname-in-addl-tkt` in RFC 4120 bit-string order.
pub const KDC_OPTION_CNAME_IN_ADDL_TKT: u32 = 0x0002_0000;

/// Raw KDC option mask for `renew` in RFC 4120 bit-string order.
pub const KDC_OPTION_RENEW: u32 = 0x0000_0002;

/// The KDC options of a request: `renewable` added when a renewable
/// lifetime (in seconds) is asked for.
pub fn request_kdc_option_bits(bits: u32, renew_lifetime: Option<u64>) -> (r: u32)
    ensures
        r == if renew_lifetime is Some {
            bits | KDC_OPTION_RENEWABLE
        } else {
            bits
        },
{
    if renew_lifetime.is_some() {
        bits | KDC_OPTION_RENEWABLE
    } else {
        bits
    }
}

/// The KDC options of a renewal request: `renewable` and `renew` added.
pub fn renewal_kdc_option_bits(bits: u32) -> (r: u32)
    ensures
        r == bits | KDC_OPTION_RENEWABLE | KDC_OPTION_RENEW,
{
    bits | KDC_OPTION_RENEWABLE | KDC_OPTION_RENEW
}

/// The MS-SFU byte array signed by PA-FOR-USER: the name type as four
/// little-endian bytes, then the UTF-8 of each component, the realm and
/// the authentication package.
pub open spec fn spec_s4u_byte_array(user: PrincipalModel, auth_package: Seq<char>) -> Seq<u8> {
    spec_i32_bytes(user.name_type, Endian::Little) + encode_utf8(spec_concat(user.components))
        + encode_utf8(user.realm) + encode_utf8(auth_package)
}

/// Build the MS-SFU byte array signed by PA-FOR-USER.
pub fn s4u_byte_array(user: &Principal, auth_package: &str) -> (r: Vec<u8>)
    ensures
        r@ == spec_s4u_byte_array(user@, auth_package@),
{
    let mut out: Vec<u8> = Vec::new();
    push_i32(&mut out, user.name_type, Endian::Little);
    let empty = String::new();
    let names = concat_after(&empty, &user.components);
    extend_bytes(&mut out, names.as_str().as_bytes());
    extend_bytes(&mut out, user.realm.as_str().as_bytes());
    extend_bytes(&mut out, auth_package.as_bytes());
    proof {
        assert(names@ =~= spec_concat(crate::text::spec_string_views(user.components@)));
    }
    out
}

// ---------------------------------------------------------------------------
// Sessions

/// A point in time as seconds and nanoseconds from the Unix epoch; times
/// before the epoch have negative seconds and non-negative nanoseconds.
#[derive(Clone, Copy, Debug, Eq, PartialEq)]
pub struct UnixTime {
    /// Whole seconds, rounded down.
    pub seconds: i64,
    /// Nanoseconds past `seconds`, below one billion.
    pub nanos: u32,
}

/// A time as whole POSIX seconds fitting 32 bits, or `TimeOverflow` when it
/// is before the epoch, has a fraction, or is too late.
pub open spec fn spec_u32_seconds(t: UnixTime) -> Option<u32> {
    if t.seconds < 0 || t.nanos != 0 || t.seconds > u32::MAX {
        None
    } else {
        Some(t.seconds as u32)
    }
}

fn system_time_to_u32_seconds(t: UnixTime) -> (r: Result<u32, Error>)
    ensures
        match spec_u32_seconds(t) {
            Some(s) => r matches Ok(v) && v == s,
            None => r matches Err(Error::TimeOverflow),
        },
{
    if t.seconds < 0 || t.nanos != 0 || t.seconds > 0xffff_ffff {
        return Err(Error::TimeOverflow);
    }
    Ok(t.seconds as u32)
}

/// Successful AS-REP or TGS-REP processing result.
#[derive(Clone, Debug, Eq, PartialEq)]
pub struct AsRepSession {
    /// Client identity returned by the KDC.
    pub client: Principal,
    /// Service identity returned by the KDC.
    pub service: Principal,
    /// Session key issued by the KDC.
    pub session_key: EncryptionKey,
    /// DER-encoded ticket from the reply.
    pub ticket: Vec<u8>,
    /// Ticket flags as raw ccache bytes.
    pub ticket_flags: [u8; 4],
    /// Initial authentication time.
    pub auth_time: UnixTime,
    /// Ticket start time, or auth time when start time is absent.
    pub start_time: UnixTime,
    /// Ticket end time.
    pub end_time: UnixTime,
    /// Renewable-until time, when supplied.
    pub renew_till: Option<UnixTime>,
    /// Session key expiration time, when supplied.
    pub key_expiration: Option<UnixTime>,
}

/// A client principal in the credential cache's terms.
pub open spec fn spec_ccache_principal(p: PrincipalModel) -> ccache::PrincipalModel {
    ccache::PrincipalModel { realm: p.realm, name_type: p.name_type, components: p.components }
}

/// The credential-cache entry for a session whose times all fit, or `None`.
pub open spec fn spec_session_credential(s: AsRepSession) -> Option<ccache::CredentialModel> {
    match (
        spec_u32_seconds(s.auth_time),
        spec_u32_seconds(s.start_time),
        spec_u32_seconds(s.end_time),
        match s.renew_till {
            None => Some(0u32),
            Some(t) => spec_u32_seconds(t),
        },
    ) {
        (Some(a), Some(b), Some(c), Some(d)) => Some(
            ccache::CredentialModel {
                client: spec_ccache_principal(s.client@),
                server: spec_ccache_principal(s.service@),
                key: ccache::EncryptionKeyModel {
                    etype: s.session_key.etype,
                    value: s.session_key.value@,
                },
                times: ccache::CredentialTimes {
                    auth_time: a,
                    start_time: b,
                    end_time: c,
                    renew_till: d,
                },
                is_skey: false,
                ticket_flags: s.ticket_flags@,
                addresses: Seq::empty(),
                auth_data: Seq::empty(),
                ticket: s.ticket@,
                second_ticket: Seq::empty(),
            },
        ),
        _ => None,
    }
}

fn ccache_principal(p: &Principal) -> (r: ccache::Principal)
    ensures
        r@ == spec_ccache_principal(p@),
{
    let r = ccache::Principal::new(copy_string(&p.realm), p.name_type, copy_strings(&p.components));
    r
}

impl AsRepSession {
    /// Convert this session into the MIT ccache credential shape.
    pub fn to_ccache_credential(&self) -> (r: Result<ccache::Credential, Error>)
        ensures
            match spec_session_credential(*self) {
                Some(c) => r matches Ok(cred) && cred@ == c,
                None => r matches Err(Error::TimeOverflow),
            },
    {
        let auth_time = match system_time_to_u32_seconds(self.auth_time) {
            Ok(t) => t,
            Err(e) => return Err(e),
        };
        let start_time = match system_time_to_u32_seconds(self.start_time) {
            Ok(t) => t,
            Err(e) => return Err(e),
        };
        let end_time = match system_time_to_u32_seconds(self.end_time) {
            Ok(t) => t,
            Err(e) => return Err(e),
        };
        let renew_till = match self.renew_till {
            None => 0u32,
            Some(t) => match system_time_to_u32_seconds(t) {
                Ok(v) => v,
                Err(e) => return Err(e),
            },
        };
        let cred = ccache::Credential {
            client: ccache_principal(&self.client),
            server: ccache_principal(&self.service),
            key: ccache::EncryptionKey {
                etype: self.session_key.etype,
                value: vstd::slice::slice_to_vec(self.session_key.value.as_slice()),
            },
            times: ccache::CredentialTimes { auth_time, start_time, end_time, renew_till },
            is_skey: false,
            ticket_flags: self.ticket_flags,
            addresses: Vec::new(),
            auth_data: Vec::new(),
            ticket: vstd::slice::slice_to_vec(self.ticket.as_slice()),
            second_ticket: Vec::new(),
        };
        proof {
            assert(cred@.addresses =~= Seq::<ccache::TypedDataModel>::empty());
            assert(cred@.auth_data =~= Seq::<ccache::TypedDataModel>::empty());
        }
        Ok(cred)
    }
}

/// Verified kpasswd AP-REP reply metadata.
#[derive(Clone, Debug, Eq, PartialEq)]
pub struct VerifiedKpasswdApRep {
    /// Reply `ctime` without `cusec`.
    pub ctime: UnixTime,
    /// Reply microsecond field.
    pub cusec: u32,
    /// Reply timestamp including `cusec`.
    pub authenticator_time: UnixTime,
    /// Optional server-selected subkey.
    pub subkey: Option<EncryptionKey>,
    /// Optional server sequence number.
    pub sequence_number: Option<u32>,
}

/// Result of a referral-following TGS exchange.
#[derive(Clone, Debug, Eq, PartialEq)]
pub struct ReferralTgsResult {
    /// Final service ticket.
    pub ticket: AsRepSession,
    /// Intermediate referral TGTs acquired while reaching the service realm.
    pub referral_tgts: Vec<AsRepSession>,
}

/// Client configuration and runtime-state diagnostics.
#[derive(Clone, Debug, Eq, PartialEq)]
pub struct TokioClientDiagnostics {
    /// Client principal name.
    pub client: String,
    /// Client realm.
    pub realm: String,
    /// Selected high-level transport protocol.
    pub protocol: String,
    /// Configured credential source: `password`, `keytab`, or `none`.
    pub credential_source: String,
    /// Whether the client currently holds a TGT session.
    pub has_tgt: bool,
    /// Number of cached TGT sessions.
    pub tgt_session_count: usize,
    /// Number of cached service tickets.
    pub service_ticket_cache_count: usize,
    /// Configured default ticket enctype IDs.
    pub default_tkt_enctypes: Vec<i32>,
    /// Configured preferred preauthentication type IDs.
    pub preferred_preauth_types: Vec<i32>,
    /// Key encryption type IDs present for the client realm in the keytab.
    pub keytab_enctypes: Vec<i32>,
    /// UDP KDC endpoints discovered from config or DNS.
    pub udp_kdcs: Vec<String>,
    /// TCP KDC endpoints discovered from config or DNS.
    pub tcp_kdcs: Vec<String>,
    /// Configuration and discovery errors found by diagnostics.
    pub errors: Vec<String>,
}

impl TokioClientDiagnostics {
    /// Whether diagnostics found no errors.
    pub fn is_ok(&self) -> (r: bool)
        ensures
            r == (self.errors@.len() == 0),
    {
        self.errors.len() == 0
    }
}

/// Counts of unusable sessions removed from a client cache.
#[derive(Clone, Copy, Debug, Default, Eq, PartialEq)]
pub struct PrunedSessions {
    /// Whether the primary TGT was removed.
    pub primary_tgt: bool,
    /// Number of realm-keyed TGT sessions removed.
    pub tgt_sessions: usize,
    /// Number of service tickets removed.
    pub service_tickets: usize,
}

impl PrunedSessions {
    /// Whether no sessions were removed.
    pub fn is_empty(&self) -> (r: bool)
        ensures
            r == (!self.primary_tgt && self.tgt_sessions == 0 && self.service_tickets == 0),
    {
        !self.primary_tgt && self.tgt_sessions == 0 && self.service_tickets == 0
    }
}

} // verus!
