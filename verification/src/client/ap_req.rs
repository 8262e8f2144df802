//! AP-REQ messages in DER: the facts read from a ticket's DER that an
//! AP-REQ needs, the authenticator a client encrypts under the session
//! key, and the AP-REQ around ticket and authenticator.

use vstd::prelude::*;

use vstd::string::StringSliceAdditionalSpecFns;
use vstd::utf8::encode_utf8;

use super::kdc_req::{
    spec_ctx, spec_general_string, spec_principal_name_der, spec_time_field, KRB5_PVNO,
};
use super::principal::{Principal, PrincipalModel};
use super::request::{ApReqOptions, Checksum};
use super::{AsRepSession, Error, UnixTime};
use crate::asn1::{
    spec_pow256, push_der_int, push_tlv, spec_der_int, spec_time_content, spec_tlv, time_content, TAG_BIT_STRING,
    TAG_GENERALIZED_TIME, TAG_GENERAL_STRING, TAG_OCTET_STRING, TAG_SEQUENCE,
};
use crate::cipher_modes::spec_len_fits;
use crate::crypto::{spec_etype_from_id, KerberosEtype};
use crate::keytab::{EncryptionKey, EncryptionKeyModel};
use crate::wire::{extend_bytes, push_u32, spec_u32_bytes, Endian};

verus! {

/// Message type of an AP-REQ.
pub const AP_REQ_MSG_TYPE: i64 = 14;

/// Key usage of an AP-REQ authenticator for a service other than a TGS.
pub const AP_REQ_AUTHENTICATOR_USAGE: u32 = 11;

/// Key usage of the authenticator in a TGS-REQ's AP-REQ.
pub const TGS_REQ_AP_REQ_AUTHENTICATOR_USAGE: u32 = 7;

// ---------------------------------------------------------------------------
// Reading DER

/// The DER element at `off`: its tag and where its content starts and
/// ends; lengths of up to two bytes are read.
pub open spec fn spec_read_tlv(s: Seq<u8>, off: int) -> Option<(u8, int, int)> {
    if off < 0 || off + 2 > s.len() {
        None
    } else {
        let tag = s[off];
        let l0 = s[off + 1];
        let (start, len) = if l0 < 128 {
            (off + 2, l0 as int)
        } else if l0 == 0x81 && off + 3 <= s.len() {
            (off + 3, s[off + 2] as int)
        } else if l0 == 0x82 && off + 4 <= s.len() {
            (off + 4, s[off + 2] as int * 256 + s[off + 3] as int)
        } else {
            (-1, 0)
        };
        if start < 0 || start + len > s.len() {
            None
        } else {
            Some((tag, start, start + len))
        }
    }
}

pub(crate) fn read_tlv(s: &[u8], off: usize) -> (r: Option<(u8, usize, usize)>)
    ensures
        match spec_read_tlv(s@, off as int) {
            Some((t, a, b)) => r matches Some((t2, a2, b2)) && t2 == t && a2 == a && b2 == b,
            None => r is None,
        },
{
    if off >= s.len() || s.len() - off < 2 {
        return None;
    }
    let tag = s[off];
    let l0 = s[off + 1];
    let (start, len): (usize, usize) = if l0 < 128 {
        (off + 2, l0 as usize)
    } else if l0 == 0x81 && s.len() - off >= 3 {
        (off + 3, s[off + 2] as usize)
    } else if l0 == 0x82 && s.len() - off >= 4 {
        (off + 4, s[off + 2] as usize * 256 + s[off + 3] as usize)
    } else {
        return None;
    };
    if len > s.len() - start {
        return None;
    }
    Some((tag, start, start + len))
}

/// An unsigned 32-bit INTEGER content: non-negative, at most four value
/// bytes after an optional leading zero.
pub open spec fn spec_u32_content(c: Seq<u8>) -> Option<u32> {
    if c.len() == 0 || c.len() > 5 || c[0] >= 0x80 || (c.len() == 5 && c[0] != 0) {
        None
    } else {
        Some(spec_be_value(c) as u32)
    }
}

/// The big-endian value of some bytes.
pub open spec fn spec_be_value(c: Seq<u8>) -> nat
    decreases c.len(),
{
    if c.len() == 0 {
        0
    } else {
        spec_be_value(c.drop_last()) * 256 + c.last() as nat
    }
}

proof fn lemma_be_value_bound(c: Seq<u8>)
    ensures
        spec_be_value(c) < spec_pow256(c.len()),
    decreases c.len(),
{
    if c.len() > 0 {
        lemma_be_value_bound(c.drop_last());
        let p = spec_pow256((c.len() - 1) as nat);
        assert(spec_be_value(c.drop_last()) * 256 + c.last() < p * 256) by (nonlinear_arith)
            requires
                spec_be_value(c.drop_last()) < p,
                c.last() < 256,
        {
        }
    }
}

fn u32_content(s: &[u8], a: usize, b: usize) -> (r: Option<u32>)
    requires
        a <= b <= s@.len(),
    ensures
        r == spec_u32_content(s@.subrange(a as int, b as int)),
{
    let ghost c = s@.subrange(a as int, b as int);
    let n = b - a;
    if n == 0 || n > 5 || s[a] >= 0x80 || (n == 5 && s[a] != 0) {
        return None;
    }
    let mut v: u64 = 0;
    let mut i: usize = a;
    while i < b
        invariant
            a <= i <= b <= s@.len(),
            c == s@.subrange(a as int, b as int),
            b - a <= 5,
            v == spec_be_value(s@.subrange(a as int, i as int)),
            v < 0x1_0000_0000_00,
        decreases b - i,
    {
        assert(s@.subrange(a as int, i + 1).drop_last() =~= s@.subrange(a as int, i as int));
        proof {
            lemma_be_value_bound(s@.subrange(a as int, i + 1));
            reveal_with_fuel(spec_pow256, 6);
            let k = (i + 1 - a) as nat;
            assert(spec_pow256(k) <= 0x1_0000_0000_00) by {
                assert(k <= 5);
                if k == 5 {
                } else if k == 4 {
                } else if k == 3 {
                } else if k == 2 {
                } else {
                }
            }
        }
        v = v * 256 + s[i] as u64;
        i = i + 1;
    }
    proof {
        assert(s@.subrange(a as int, b as int) =~= c);
        reveal_with_fuel(spec_pow256, 6);
        if n == 5 {
            lemma_be_value_leading_zero(c);
            lemma_be_value_bound(c.subrange(1, 5));
        } else {
            lemma_be_value_bound(c);
            assert(spec_pow256(n as nat) <= 0x1_0000_0000) by {
                if n == 4 {
                } else if n == 3 {
                } else if n == 2 {
                } else {
                }
            }
        }
    }
    Some(v as u32)
}

proof fn lemma_be_value_leading_zero(c: Seq<u8>)
    requires
        c.len() >= 1,
        c[0] == 0,
    ensures
        spec_be_value(c) == spec_be_value(c.subrange(1, c.len() as int)),
    decreases c.len(),
{
    let t = c.subrange(1, c.len() as int);
    if c.len() > 1 {
        lemma_be_value_leading_zero(c.drop_last());
        assert(c.drop_last().subrange(1, c.len() - 1) =~= t.drop_last());
        assert(t.last() == c.last());
    } else {
        assert(t =~= Seq::<u8>::empty());
        assert(c.drop_last() =~= Seq::<u8>::empty());
    }
}

/// What an AP-REQ reads of a ticket: whether its service's first name
/// component is `krbtgt`, and the key version of its encrypted part.
pub struct TicketInfo {
    pub for_tgs: bool,
    pub kvno: Option<u32>,
}

/// The facts read from a ticket's DER: `[APPLICATION 1]` around a
/// SEQUENCE of `[0]` version, `[1]` realm, `[2]` service name and `[3]`
/// encrypted part, which starts with `[0]` its encryption type and may
/// go on with `[1]` a key version; `None` where the bytes are not so.
pub open spec fn spec_ticket_info(s: Seq<u8>) -> Option<TicketInfo> {
    match spec_read_tlv(s, 0) {
        Some((0x61, a, b)) if b == s.len() => match spec_read_tlv(s, a) {
            Some((0x30, sa, sb)) if sb == b => match spec_read_tlv(s, sa) {
                Some((0xa0, _, e0)) => match spec_read_tlv(s, e0) {
                    Some((0xa1, _, e1)) => match spec_read_tlv(s, e1) {
                        Some((0xa2, na, e2)) => match spec_read_tlv(s, e2) {
                            Some((0xa3, ea, e3)) if e3 == sb => match (
                                spec_first_name(s, na),
                                spec_enc_part_kvno(s, ea),
                            ) {
                                (Some(first), Some(kvno)) => Some(
                                    TicketInfo {
                                        for_tgs: first == "krbtgt"@.map_values(|c: char| c as u8),
                                        kvno,
                                    },
                                ),
                                _ => None,
                            },
                            _ => None,
                        },
                        _ => None,
                    },
                    _ => None,
                },
                _ => None,
            },
            _ => None,
        },
        _ => None,
    }
}

/// The bytes of the first component of the PrincipalName inside the
/// field whose content starts at `na`; the empty sequence of bytes where
/// the name has no component.
pub open spec fn spec_first_name(s: Seq<u8>, na: int) -> Option<Seq<u8>> {
    match spec_read_tlv(s, na) {
        Some((0x30, pa, _)) => match spec_read_tlv(s, pa) {
            Some((0xa0, _, t0)) => match spec_read_tlv(s, t0) {
                Some((0xa1, la, _)) => match spec_read_tlv(s, la) {
                    Some((0x30, qa, qb)) => if qa == qb {
                        Some(Seq::empty())
                    } else {
                        match spec_read_tlv(s, qa) {
                            Some((0x1b, ca, cb)) => Some(s.subrange(ca, cb)),
                            _ => None,
                        }
                    },
                    _ => None,
                },
                _ => None,
            },
            _ => None,
        },
        _ => None,
    }
}

/// The key version of the EncryptedData inside the field whose content
/// starts at `ea`: `Some(None)` where it has none.
pub open spec fn spec_enc_part_kvno(s: Seq<u8>, ea: int) -> Option<Option<u32>> {
    match spec_read_tlv(s, ea) {
        Some((0x30, da, _)) => match spec_read_tlv(s, da) {
            Some((0xa0, _, k0)) => match spec_read_tlv(s, k0) {
                Some((0xa1, ka, _)) => match spec_read_tlv(s, ka) {
                    Some((0x02, ia, ib)) => match spec_u32_content(s.subrange(ia, ib)) {
                        Some(v) => Some(Some(v)),
                        None => None,
                    },
                    _ => None,
                },
                Some(_) => Some(None),
                None => None,
            },
            _ => None,
        },
        _ => None,
    }
}

/// The bytes of a ticket's realm: the Kerberos string in its `[1]` field.
pub open spec fn spec_ticket_realm(s: Seq<u8>) -> Option<Seq<u8>> {
    match spec_read_tlv(s, 0) {
        Some((0x61, a, _)) => match spec_read_tlv(s, a) {
            Some((0x30, sa, _)) => match spec_read_tlv(s, sa) {
                Some((0xa0, _, e0)) => match spec_read_tlv(s, e0) {
                    Some((0xa1, ra, _)) => match spec_read_tlv(s, ra) {
                        Some((0x1b, ga, gb)) => Some(s.subrange(ga, gb)),
                        _ => None,
                    },
                    _ => None,
                },
                _ => None,
            },
            _ => None,
        },
        _ => None,
    }
}

/// Read the bytes of a ticket's realm.
pub fn ticket_realm(s: &[u8]) -> (r: Option<Vec<u8>>)
    ensures
        match spec_ticket_realm(s@) {
            Some(v) => r matches Some(x) && x@ == v,
            None => r is None,
        },
{
    let (t, a, _) = match read_tlv(s, 0) {
        Some(x) => x,
        None => return None,
    };
    if t != 0x61 {
        return None;
    }
    let (t, sa, _) = match read_tlv(s, a) {
        Some(x) => x,
        None => return None,
    };
    if t != 0x30 {
        return None;
    }
    let (t, _, e0) = match read_tlv(s, sa) {
        Some(x) => x,
        None => return None,
    };
    if t != 0xa0 {
        return None;
    }
    let (t, ra, _) = match read_tlv(s, e0) {
        Some(x) => x,
        None => return None,
    };
    if t != 0xa1 {
        return None;
    }
    let (t, ga, gb) = match read_tlv(s, ra) {
        Some(x) => x,
        None => return None,
    };
    if t != 0x1b {
        return None;
    }
    let mut out: Vec<u8> = Vec::new();
    extend_bytes(&mut out, &s[ga..gb]);
    Some(out)
}

fn first_name(s: &[u8], na: usize) -> (r: Option<Vec<u8>>)
    ensures
        match spec_first_name(s@, na as int) {
            Some(v) => r matches Some(x) && x@ == v,
            None => r is None,
        },
{
    let (t, pa, _) = match read_tlv(s, na) {
        Some(x) => x,
        None => return None,
    };
    if t != 0x30 {
        return None;
    }
    let (t, _, t0) = match read_tlv(s, pa) {
        Some(x) => x,
        None => return None,
    };
    if t != 0xa0 {
        return None;
    }
    let (t, la, _) = match read_tlv(s, t0) {
        Some(x) => x,
        None => return None,
    };
    if t != 0xa1 {
        return None;
    }
    let (t, qa, qb) = match read_tlv(s, la) {
        Some(x) => x,
        None => return None,
    };
    if t != 0x30 {
        return None;
    }
    if qa == qb {
        return Some(Vec::new());
    }
    let (t, ca, cb) = match read_tlv(s, qa) {
        Some(x) => x,
        None => return None,
    };
    if t != 0x1b {
        return None;
    }
    let mut out: Vec<u8> = Vec::new();
    extend_bytes(&mut out, &s[ca..cb]);
    Some(out)
}

fn enc_part_kvno(s: &[u8], ea: usize) -> (r: Option<Option<u32>>)
    ensures
        r == spec_enc_part_kvno(s@, ea as int),
{
    let (t, da, _) = match read_tlv(s, ea) {
        Some(x) => x,
        None => return None,
    };
    if t != 0x30 {
        return None;
    }
    let (t, _, k0) = match read_tlv(s, da) {
        Some(x) => x,
        None => return None,
    };
    if t != 0xa0 {
        return None;
    }
    let (t, ka, _) = match read_tlv(s, k0) {
        Some(x) => x,
        None => return None,
    };
    if t != 0xa1 {
        return Some(None);
    }
    let (t, ia, ib) = match read_tlv(s, ka) {
        Some(x) => x,
        None => return None,
    };
    if t != 0x02 {
        return None;
    }
    match u32_content(s, ia, ib) {
        Some(v) => Some(Some(v)),
        None => None,
    }
}

/// Read what an AP-REQ needs of a ticket's DER.
pub fn ticket_info(s: &[u8]) -> (r: Option<TicketInfo>)
    ensures
        r == spec_ticket_info(s@),
{
    let (t, a, b) = match read_tlv(s, 0) {
        Some(x) => x,
        None => return None,
    };
    if t != 0x61 || b != s.len() {
        return None;
    }
    let (t, sa, sb) = match read_tlv(s, a) {
        Some(x) => x,
        None => return None,
    };
    if t != 0x30 || sb != b {
        return None;
    }
    let (t, _, e0) = match read_tlv(s, sa) {
        Some(x) => x,
        None => return None,
    };
    if t != 0xa0 {
        return None;
    }
    let (t, _, e1) = match read_tlv(s, e0) {
        Some(x) => x,
        None => return None,
    };
    if t != 0xa1 {
        return None;
    }
    let (t, na, e2) = match read_tlv(s, e1) {
        Some(x) => x,
        None => return None,
    };
    if t != 0xa2 {
        return None;
    }
    let (t, ea, e3) = match read_tlv(s, e2) {
        Some(x) => x,
        None => return None,
    };
    if t != 0xa3 || e3 != sb {
        return None;
    }
    let first = first_name(s, na);
    let kvno = enc_part_kvno(s, ea);
    match (first, kvno) {
        (Some(f), Some(k)) => {
            let krbtgt: [u8; 6] = [0x6b, 0x72, 0x62, 0x74, 0x67, 0x74];
            let for_tgs = crate::crypto::constant_time_eq(f.as_slice(), &krbtgt);
            proof {
                reveal_strlit("krbtgt");
                assert(krbtgt@ =~= "krbtgt"@.map_values(|c: char| c as u8));
            }
            Some(TicketInfo { for_tgs, kvno: k })
        },
        _ => None,
    }
}

// ---------------------------------------------------------------------------
// Building an AP-REQ

/// A Checksum or an EncryptionKey: a type, then bytes.
pub open spec fn spec_pair_der(t: i32, bytes: Seq<u8>) -> Seq<u8> {
    spec_tlv(
        TAG_SEQUENCE,
        spec_ctx(0, spec_der_int(t as int)) + spec_ctx(1, spec_tlv(TAG_OCTET_STRING, bytes)),
    )
}

/// An optional field: nothing when absent.
pub open spec fn spec_opt(present: bool, field: Seq<u8>) -> Seq<u8> {
    if present {
        field
    } else {
        Seq::empty()
    }
}

/// An Authenticator: version 5, the client's realm (as the bytes of a
/// Kerberos string) and name, the checksum when given, microseconds,
/// time, and the subkey and sequence number when given.
pub open spec fn spec_authenticator_der(
    crealm: Seq<u8>,
    cname: PrincipalModel,
    checksum: Option<(i32, Seq<u8>)>,
    cusec: u32,
    ctime: Seq<u8>,
    subkey: Option<EncryptionKeyModel>,
    sequence_number: Option<u32>,
) -> Seq<u8> {
    spec_tlv(
        0x62,
        spec_tlv(
            TAG_SEQUENCE,
            spec_ctx(0, spec_der_int(KRB5_PVNO as int)) + spec_ctx(1, spec_tlv(TAG_GENERAL_STRING, crealm))
                + spec_ctx(2, spec_principal_name_der(cname)) + spec_opt(
                checksum is Some,
                spec_ctx(3, spec_pair_der(checksum->Some_0.0, checksum->Some_0.1)),
            ) + spec_ctx(4, spec_der_int(cusec as int)) + spec_time_field(5, ctime) + spec_opt(
                subkey is Some,
                spec_ctx(6, spec_pair_der(subkey->Some_0.etype, subkey->Some_0.value)),
            ) + spec_opt(
                sequence_number is Some,
                spec_ctx(7, spec_der_int(sequence_number->Some_0 as int)),
            ),
        ),
    )
}

/// The authenticator of a client AP-REQ made with `options`.
pub open spec fn spec_client_authenticator_der(
    client: PrincipalModel,
    options: ApReqOptions,
    cusec: u32,
    ctime: Seq<u8>,
) -> Seq<u8> {
    spec_authenticator_der(
        encode_utf8(client.realm),
        client,
        match options.checksum {
            Some(c) => Some((c.checksum_type, c.checksum@)),
            None => None,
        },
        cusec,
        ctime,
        match options.subkey {
            Some(k) => Some(k@),
            None => None,
        },
        options.sequence_number,
    )
}

/// An EncryptedData: encryption type, key version when known, cipher.
pub open spec fn spec_encrypted_data_der(etype: i32, kvno: Option<u32>, cipher: Seq<u8>) -> Seq<u8> {
    spec_tlv(
        TAG_SEQUENCE,
        spec_ctx(0, spec_der_int(etype as int)) + spec_opt(
            kvno is Some,
            spec_ctx(1, spec_der_int(kvno->Some_0 as int)),
        ) + spec_ctx(2, spec_tlv(TAG_OCTET_STRING, cipher)),
    )
}

/// An AP-REQ: version, message type, AP options as a 32-bit BIT STRING,
/// the ticket as it stands, and the encrypted authenticator.
pub open spec fn spec_ap_req_der(ap_option_bits: u32, ticket: Seq<u8>, authenticator: Seq<u8>) -> Seq<u8> {
    spec_tlv(
        0x6e,
        spec_tlv(
            TAG_SEQUENCE,
            spec_ctx(0, spec_der_int(KRB5_PVNO as int)) + spec_ctx(1, spec_der_int(AP_REQ_MSG_TYPE as int))
                + spec_ctx(
                2,
                spec_tlv(TAG_BIT_STRING, seq![0u8] + spec_u32_bytes(ap_option_bits, Endian::Big)),
            ) + spec_ctx(3, ticket) + spec_ctx(4, authenticator),
        ),
    )
}

/// The AP-REQ bytes for a ticket session: `InvalidTicket` when the
/// ticket's DER cannot be read, `TimeOverflow` when the time has no
/// calendar date, `UnsupportedEtype` for an unknown session key type,
/// `MessageTooLarge` when the authenticator is too long to encrypt, and
/// the encryption's error; else the AP-REQ with the authenticator
/// encrypted under the session key, with the TGS usage for a
/// ticket-granting ticket.
pub open spec fn spec_ap_req(
    session: AsRepSession,
    options: ApReqOptions,
    timestamp: UnixTime,
    cusec: u32,
    confounder: Seq<u8>,
) -> Result<Seq<u8>, Error> {
    match spec_ticket_info(session.ticket@) {
        None => Err(Error::InvalidTicket),
        Some(info) => match spec_time_content(timestamp.seconds) {
            None => Err(Error::TimeOverflow),
            Some(ctime) => {
                let plain = spec_client_authenticator_der(session.client@, options, cusec, ctime);
                let usage = if info.for_tgs {
                    TGS_REQ_AP_REQ_AUTHENTICATOR_USAGE
                } else {
                    AP_REQ_AUTHENTICATOR_USAGE
                };
                match spec_sealed(session.session_key@, info.kvno, plain, usage, confounder) {
                    Err(e) => Err(e),
                    Ok(enc) => Ok(spec_ap_req_der(options.ap_option_bits, session.ticket@, enc)),
                }
            },
        },
    }
}

/// A time some microseconds later, or `None` when it does not fit.
pub open spec fn spec_add_micros(t: UnixTime, micros: u32) -> Option<UnixTime> {
    let total = t.nanos + micros * 1000;
    let seconds = t.seconds + total / 1_000_000_000;
    if seconds > i64::MAX {
        None
    } else {
        Some(UnixTime { seconds: seconds as i64, nanos: (total % 1_000_000_000) as u32 })
    }
}

/// Encoded client AP-REQ plus the authenticator facts needed to check the
/// AP-REP.
#[derive(Clone, Debug, Eq, PartialEq)]
pub struct BuiltApReq {
    /// DER-encoded AP-REQ bytes.
    pub der: Vec<u8>,
    /// Client principal from the service ticket session.
    pub client: Principal,
    /// Service principal from the service ticket session.
    pub service: Principal,
    /// Session key used to encrypt the authenticator.
    pub session_key: EncryptionKey,
    /// Authenticator `ctime`.
    pub authenticator_ctime: UnixTime,
    /// Authenticator `cusec`.
    pub authenticator_cusec: u32,
    /// Authenticator time including `cusec`.
    pub authenticator_time: UnixTime,
    /// Optional authenticator sequence number.
    pub sequence_number: Option<u32>,
    /// Optional authenticator subkey.
    pub subkey: Option<EncryptionKey>,
}

fn add_micros(t: UnixTime, micros: u32) -> (r: Option<UnixTime>)
    requires
        t.nanos < 1_000_000_000,
    ensures
        r == spec_add_micros(t, micros),
{
    let total: u64 = t.nanos as u64 + micros as u64 * 1000;
    let seconds: i128 = t.seconds as i128 + (total / 1_000_000_000) as i128;
    if seconds > 0x7fff_ffff_ffff_ffff {
        return None;
    }
    Some(UnixTime { seconds: seconds as i64, nanos: (total % 1_000_000_000) as u32 })
}

fn push_opt_int(out: &mut Vec<u8>, tag: u8, v: Option<u32>)
    ensures
        final(out)@ == old(out)@ + spec_opt(v is Some, spec_tlv(tag, spec_der_int(v->Some_0 as int))),
{
    match v {
        Some(x) => {
            let mut i: Vec<u8> = Vec::new();
            push_der_int(&mut i, x as i64);
            push_tlv(out, tag, i.as_slice());
        },
        None => {
            assert(out@ =~= old(out)@ + Seq::<u8>::empty());
        },
    }
}

fn pair_der(t: i32, bytes: &[u8]) -> (r: Vec<u8>)
    ensures
        r@ == spec_pair_der(t, bytes@),
{
    let mut i: Vec<u8> = Vec::new();
    push_der_int(&mut i, t as i64);
    let mut o: Vec<u8> = Vec::new();
    push_tlv(&mut o, TAG_OCTET_STRING, bytes);
    let mut content: Vec<u8> = Vec::new();
    push_tlv(&mut content, 0xa0, i.as_slice());
    push_tlv(&mut content, 0xa1, o.as_slice());
    let mut out: Vec<u8> = Vec::new();
    push_tlv(&mut out, TAG_SEQUENCE, content.as_slice());
    proof {
        assert(content@ =~= spec_ctx(0, spec_der_int(t as int)) + spec_ctx(
            1,
            spec_tlv(TAG_OCTET_STRING, bytes@),
        ));
    }
    out
}

pub(crate) fn authenticator_der(
    crealm: &[u8],
    cname: &Principal,
    checksum: Option<(i32, &[u8])>,
    cusec: u32,
    ctime: &Vec<u8>,
    subkey: Option<&EncryptionKey>,
    sequence_number: Option<u32>,
) -> (r: Vec<u8>)
    ensures
        r@ == spec_authenticator_der(
            crealm@,
            cname@,
            match checksum {
                Some(c) => Some((c.0, c.1@)),
                None => None,
            },
            cusec,
            ctime@,
            match subkey {
                Some(k) => Some(k@),
                None => None,
            },
            sequence_number,
        ),
{
    let mut content: Vec<u8> = Vec::new();
    let mut v: Vec<u8> = Vec::new();
    push_der_int(&mut v, KRB5_PVNO);
    push_tlv(&mut content, 0xa0, v.as_slice());
    let mut realm: Vec<u8> = Vec::new();
    push_tlv(&mut realm, TAG_GENERAL_STRING, crealm);
    push_tlv(&mut content, 0xa1, realm.as_slice());
    let name = super::kdc_req::principal_name_der(cname);
    push_tlv(&mut content, 0xa2, name.as_slice());
    let ghost c0 = content@;
    match checksum {
        Some((t, b)) => {
            let d = pair_der(t, b);
            push_tlv(&mut content, 0xa3, d.as_slice());
        },
        None => {},
    }
    let ghost c1 = content@;
    let mut u: Vec<u8> = Vec::new();
    push_der_int(&mut u, cusec as i64);
    push_tlv(&mut content, 0xa4, u.as_slice());
    let mut t: Vec<u8> = Vec::new();
    push_tlv(&mut t, TAG_GENERALIZED_TIME, ctime.as_slice());
    push_tlv(&mut content, 0xa5, t.as_slice());
    let ghost c2 = content@;
    match subkey {
        Some(k) => {
            let d = pair_der(k.etype, k.value.as_slice());
            push_tlv(&mut content, 0xa6, d.as_slice());
        },
        None => {},
    }
    let ghost c3 = content@;
    push_opt_int(&mut content, 0xa7, sequence_number);
    let mut seq: Vec<u8> = Vec::new();
    push_tlv(&mut seq, TAG_SEQUENCE, content.as_slice());
    let mut out: Vec<u8> = Vec::new();
    push_tlv(&mut out, 0x62, seq.as_slice());
    proof {
        let cks = match checksum {
            Some(c) => Some((c.0, c.1@)),
            None => None,
        };
        let sks = match subkey {
            Some(k) => Some(k@),
            None => None,
        };
        let ck = spec_opt(cks is Some, spec_ctx(3, spec_pair_der(cks->Some_0.0, cks->Some_0.1)));
        let sk = spec_opt(sks is Some, spec_ctx(6, spec_pair_der(sks->Some_0.etype, sks->Some_0.value)));
        assert(c1 =~= c0 + ck);
        assert(c3 =~= c2 + sk);
        assert(content@ =~= spec_ctx(0, spec_der_int(KRB5_PVNO as int)) + spec_ctx(
            1,
            spec_tlv(TAG_GENERAL_STRING, crealm@),
        ) + spec_ctx(2, spec_principal_name_der(cname@)) + ck + spec_ctx(4, spec_der_int(cusec as int))
            + spec_time_field(5, ctime@) + sk + spec_opt(
            sequence_number is Some,
            spec_ctx(7, spec_der_int(sequence_number->Some_0 as int)),
        ));
    }
    out
}

fn encrypted_data_der(etype: i32, kvno: Option<u32>, cipher: &[u8]) -> (r: Vec<u8>)
    ensures
        r@ == spec_encrypted_data_der(etype, kvno, cipher@),
{
    let mut content: Vec<u8> = Vec::new();
    let mut e: Vec<u8> = Vec::new();
    push_der_int(&mut e, etype as i64);
    push_tlv(&mut content, 0xa0, e.as_slice());
    push_opt_int(&mut content, 0xa1, kvno);
    let mut c: Vec<u8> = Vec::new();
    push_tlv(&mut c, TAG_OCTET_STRING, cipher);
    push_tlv(&mut content, 0xa2, c.as_slice());
    let mut out: Vec<u8> = Vec::new();
    push_tlv(&mut out, TAG_SEQUENCE, content.as_slice());
    proof {
        assert(content@ =~= spec_ctx(0, spec_der_int(etype as int)) + spec_opt(
            kvno is Some,
            spec_ctx(1, spec_der_int(kvno->Some_0 as int)),
        ) + spec_ctx(2, spec_tlv(TAG_OCTET_STRING, cipher@)));
    }
    out
}

/// Encode an AP-REQ around a ticket and an encrypted authenticator.
pub fn ap_req_der(ap_option_bits: u32, ticket: &[u8], authenticator: &[u8]) -> (r: Vec<u8>)
    ensures
        r@ == spec_ap_req_der(ap_option_bits, ticket@, authenticator@),
{
    let mut content: Vec<u8> = Vec::new();
    let mut v: Vec<u8> = Vec::new();
    push_der_int(&mut v, KRB5_PVNO);
    push_tlv(&mut content, 0xa0, v.as_slice());
    let mut m: Vec<u8> = Vec::new();
    push_der_int(&mut m, AP_REQ_MSG_TYPE);
    push_tlv(&mut content, 0xa1, m.as_slice());
    let mut bits: Vec<u8> = Vec::new();
    bits.push(0u8);
    push_u32(&mut bits, ap_option_bits, Endian::Big);
    let mut b: Vec<u8> = Vec::new();
    push_tlv(&mut b, TAG_BIT_STRING, bits.as_slice());
    push_tlv(&mut content, 0xa2, b.as_slice());
    push_tlv(&mut content, 0xa3, ticket);
    push_tlv(&mut content, 0xa4, authenticator);
    let mut seq: Vec<u8> = Vec::new();
    push_tlv(&mut seq, TAG_SEQUENCE, content.as_slice());
    let mut out: Vec<u8> = Vec::new();
    push_tlv(&mut out, 0x6e, seq.as_slice());
    proof {
        assert(bits@ =~= seq![0u8] + spec_u32_bytes(ap_option_bits, Endian::Big));
        assert(content@ =~= spec_ctx(0, spec_der_int(KRB5_PVNO as int)) + spec_ctx(
            1,
            spec_der_int(AP_REQ_MSG_TYPE as int),
        ) + spec_ctx(2, spec_tlv(TAG_BIT_STRING, seq![0u8] + spec_u32_bytes(ap_option_bits, Endian::Big)))
            + spec_ctx(3, ticket@) + spec_ctx(4, authenticator@));
    }
    out
}

/// An authenticator encrypted under a session key, as EncryptedData.
pub open spec fn spec_sealed(key: EncryptionKeyModel, kvno: Option<u32>, plain: Seq<u8>, usage: u32, confounder: Seq<u8>) -> Result<
    Seq<u8>,
    Error,
> {
    match spec_etype_from_id(key.etype) {
        None => Err(Error::UnsupportedEtype(key.etype)),
        Some(e) => if !spec_len_fits(plain.len() + 32) {
            Err(Error::MessageTooLarge)
        } else {
            match e.spec_encrypt_message(key.value, plain, usage, confounder) {
                Err(ce) => Err(Error::Crypto(ce)),
                Ok(cipher) => Ok(spec_encrypted_data_der(key.etype, kvno, cipher)),
            }
        },
    }
}

pub(crate) fn seal(key: &EncryptionKey, kvno: Option<u32>, plain: &[u8], usage: u32, confounder: &[u8]) -> (r: Result<
    Vec<u8>,
    Error,
>)
    ensures
        match spec_sealed(key@, kvno, plain@, usage, confounder@) {
            Ok(v) => r matches Ok(x) && x@ == v,
            Err(e) => r == Err::<Vec<u8>, Error>(e),
        },
{
    let etype = match KerberosEtype::from_etype_id(key.etype) {
        Some(e) => e,
        None => return Err(Error::UnsupportedEtype(key.etype)),
    };
    if plain.len() > (isize::MAX as usize) - 32 {
        return Err(Error::MessageTooLarge);
    }
    let cipher = match etype.encrypt_message_with_confounder(key.value.as_slice(), plain, usage, confounder) {
        Ok(c) => c,
        Err(e) => return Err(Error::Crypto(e)),
    };
    Ok(encrypted_data_der(key.etype, kvno, cipher.as_slice()))
}

pub(crate) fn copy_principal(p: &Principal) -> (r: Principal)
    ensures
        r@ == p@,
{
    Principal::new(crate::text::copy_string(&p.realm), p.name_type, crate::text::copy_strings(&p.components))
}

/// Build a client AP-REQ with an explicit authenticator timestamp and
/// confounder.
pub fn build_ap_req_with_confounder(
    service_ticket: &AsRepSession,
    options: ApReqOptions,
    timestamp: UnixTime,
    cusec: u32,
    confounder: &[u8],
) -> (r: Result<BuiltApReq, Error>)
    requires
        timestamp.nanos < 1_000_000_000,
    ensures
        match spec_ap_req(*service_ticket, options, timestamp, cusec, confounder@) {
            Err(e) => r == Err::<BuiltApReq, Error>(e),
            Ok(der) => match spec_add_micros(timestamp, cusec) {
                None => r == Err::<BuiltApReq, Error>(Error::TimeOverflow),
                Some(t) => r matches Ok(b) && b.der@ == der && b.client@ == service_ticket.client@
                    && b.service@ == service_ticket.service@ && b.session_key@
                    == service_ticket.session_key@ && b.authenticator_ctime == timestamp
                    && b.authenticator_cusec == cusec && b.authenticator_time == t
                    && b.sequence_number == options.sequence_number && b.subkey == options.subkey,
            },
        },
{
    let info = match ticket_info(service_ticket.ticket.as_slice()) {
        Some(i) => i,
        None => return Err(Error::InvalidTicket),
    };
    let ctime = match time_content(timestamp.seconds) {
        Some(c) => c,
        None => return Err(Error::TimeOverflow),
    };
    let checksum: Option<(i32, &[u8])> = match &options.checksum {
        Some(c) => Some((c.checksum_type, c.checksum.as_slice())),
        None => None,
    };
    let subkey: Option<&EncryptionKey> = match &options.subkey {
        Some(k) => Some(k),
        None => None,
    };
    let plain = authenticator_der(
        service_ticket.client.realm.as_str().as_bytes(),
        &service_ticket.client,
        checksum,
        cusec,
        &ctime,
        subkey,
        options.sequence_number,
    );
    let usage = if info.for_tgs {
        TGS_REQ_AP_REQ_AUTHENTICATOR_USAGE
    } else {
        AP_REQ_AUTHENTICATOR_USAGE
    };
    let enc = match seal(&service_ticket.session_key, info.kvno, plain.as_slice(), usage, confounder) {
        Ok(e) => e,
        Err(e) => return Err(e),
    };
    let der = ap_req_der(options.ap_option_bits, service_ticket.ticket.as_slice(), enc.as_slice());
    let authenticator_time = match add_micros(timestamp, cusec) {
        Some(t) => t,
        None => return Err(Error::TimeOverflow),
    };
    let client = copy_principal(&service_ticket.client);
    let service = copy_principal(&service_ticket.service);
    let session_key = EncryptionKey {
        etype: service_ticket.session_key.etype,
        value: vstd::slice::slice_to_vec(service_ticket.session_key.value.as_slice()),
    };
    let ApReqOptions { ap_option_bits: _, checksum: _, subkey, sequence_number } = options;
    Ok(
        BuiltApReq {
            der,
            client,
            service,
            session_key,
            authenticator_ctime: timestamp,
            authenticator_cusec: cusec,
            authenticator_time,
            sequence_number,
            subkey,
        },
    )
}

} // verus!
