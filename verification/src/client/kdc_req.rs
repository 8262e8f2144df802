//! KDC requests in DER: the KDC-REQ-BODY a client asks with, and the
//! AS-REQ that carries it.

use vstd::prelude::*;

use vstd::string::StringSliceAdditionalSpecFns;
use vstd::utf8::encode_utf8;

use super::principal::{Principal, PrincipalModel};
use super::ap_req::{
    ap_req_der, authenticator_der, seal, spec_ap_req_der, spec_authenticator_der, spec_sealed,
    spec_ticket_info, spec_ticket_realm, ticket_info, ticket_realm,
};
use super::reply::{BuiltAsReq, BuiltTgsReq};
use super::request::{AsReqOptions, PaData, TgsReqOptions};
use super::AsRepSession;
use crate::cipher_modes::spec_len_fits;
use crate::crypto::{spec_etype_from_id, KerberosEtype};
use super::{request_kdc_option_bits, Error, UnixTime};
use crate::asn1::{
    push_der_int, push_tlv, spec_application_tag, spec_context_tag, spec_der_int, spec_time_content,
    spec_tlv, time_content, TAG_BIT_STRING, TAG_GENERALIZED_TIME, TAG_GENERAL_STRING,
    TAG_OCTET_STRING, TAG_SEQUENCE,
};
use crate::wire::{extend_bytes, push_u32, spec_u32_bytes, Endian};

verus! {

/// Kerberos protocol version number.
pub const KRB5_PVNO: i64 = 5;

/// Message type of an AS-REQ.
pub const AS_REQ_MSG_TYPE: u8 = 10;

/// Message type of a TGS-REQ.
pub const TGS_REQ_MSG_TYPE: u8 = 12;

/// An explicit context-specific field `[n]`.
pub open spec fn spec_ctx(n: u8, content: Seq<u8>) -> Seq<u8> {
    spec_tlv(spec_context_tag(n), content)
}

/// A Kerberos string: a GeneralString of the UTF-8 bytes.
pub open spec fn spec_general_string(s: Seq<char>) -> Seq<u8> {
    spec_tlv(TAG_GENERAL_STRING, encode_utf8(s))
}

/// The Kerberos strings of `cs`, one after another.
pub open spec fn spec_strings(cs: Seq<Seq<char>>) -> Seq<u8>
    decreases cs.len(),
{
    if cs.len() == 0 {
        Seq::empty()
    } else {
        spec_strings(cs.drop_last()) + spec_general_string(cs.last())
    }
}

/// A PrincipalName: its name type, then its components.
pub open spec fn spec_principal_name_der(p: PrincipalModel) -> Seq<u8> {
    spec_tlv(
        TAG_SEQUENCE,
        spec_ctx(0, spec_der_int(p.name_type as int)) + spec_ctx(
            1,
            spec_tlv(TAG_SEQUENCE, spec_strings(p.components)),
        ),
    )
}

/// The INTEGERs of `v`, one after another.
pub open spec fn spec_ints(v: Seq<i32>) -> Seq<u8>
    decreases v.len(),
{
    if v.len() == 0 {
        Seq::empty()
    } else {
        spec_ints(v.drop_last()) + spec_der_int(v.last() as int)
    }
}

/// A PA-DATA: its type, then its value as an OCTET STRING.
pub open spec fn spec_padata_bytes(t: i32, value: Seq<u8>) -> Seq<u8> {
    spec_tlv(
        TAG_SEQUENCE,
        spec_ctx(1, spec_der_int(t as int)) + spec_ctx(2, spec_tlv(TAG_OCTET_STRING, value)),
    )
}

/// The PA-DATA encoding of `p`.
pub open spec fn spec_padata_der(p: PaData) -> Seq<u8> {
    spec_padata_bytes(p.padata_type, p.padata_value@)
}

/// The PA-DATA of `ps`, one after another.
pub open spec fn spec_padatas(ps: Seq<PaData>) -> Seq<u8>
    decreases ps.len(),
{
    if ps.len() == 0 {
        Seq::empty()
    } else {
        spec_padatas(ps.drop_last()) + spec_padata_der(ps.last())
    }
}

/// KDC options: a 32-bit BIT STRING of the raw krb5.conf bits.
pub open spec fn spec_kdc_options_der(bits: u32) -> Seq<u8> {
    spec_tlv(TAG_BIT_STRING, seq![0u8] + spec_u32_bytes(bits, Endian::Big))
}

/// A request time `[n]` as a GeneralizedTime.
pub open spec fn spec_time_field(n: u8, content: Seq<u8>) -> Seq<u8> {
    spec_ctx(n, spec_tlv(TAG_GENERALIZED_TIME, content))
}

/// The fields of a KDC-REQ-BODY, as plain values.
pub struct ReqBodyModel {
    pub kdc_options: u32,
    pub cname: PrincipalModel,
    pub realm: Seq<char>,
    pub sname: PrincipalModel,
    pub till: Seq<u8>,
    pub rtime: Option<Seq<u8>>,
    pub nonce: u32,
    pub etypes: Seq<i32>,
    pub additional_tickets: Seq<Seq<u8>>,
}

/// A KDC-REQ-BODY: options, client name, realm, service name, end time,
/// renewable end time when asked for, nonce and encryption types.
pub open spec fn spec_req_body_der(b: ReqBodyModel) -> Seq<u8> {
    spec_tlv(
        TAG_SEQUENCE,
        spec_ctx(0, spec_kdc_options_der(b.kdc_options)) + spec_ctx(
            1,
            spec_principal_name_der(b.cname),
        ) + spec_ctx(2, spec_general_string(b.realm)) + spec_ctx(
            3,
            spec_principal_name_der(b.sname),
        ) + spec_time_field(5, b.till) + match b.rtime {
            Some(r) => spec_time_field(6, r),
            None => Seq::empty(),
        } + spec_ctx(7, spec_der_int(b.nonce as int)) + spec_ctx(
            8,
            spec_tlv(TAG_SEQUENCE, spec_ints(b.etypes)),
        ) + if b.additional_tickets.len() == 0 {
            Seq::empty()
        } else {
            spec_ctx(11, spec_tlv(TAG_SEQUENCE, crate::asn1::spec_flatten(b.additional_tickets)))
        },
    )
}

/// A KDC-REQ of the given message type: version, message type, the
/// PA-DATA when there is any, and the body.
pub open spec fn spec_kdc_req_der(msg_type: u8, padata: Option<Seq<u8>>, body: Seq<u8>) -> Seq<u8> {
    spec_tlv(
        spec_application_tag(msg_type),
        spec_tlv(
            TAG_SEQUENCE,
            spec_ctx(1, spec_der_int(KRB5_PVNO as int)) + spec_ctx(2, spec_der_int(msg_type as int))
                + match padata {
                None => Seq::empty(),
                Some(p) => spec_ctx(3, spec_tlv(TAG_SEQUENCE, p)),
            } + spec_ctx(4, body),
        ),
    )
}

/// The PA-DATA field of a request: none when there is no PA-DATA.
pub open spec fn spec_padata_field(padata: Seq<PaData>) -> Option<Seq<u8>> {
    if padata.len() == 0 {
        None
    } else {
        Some(spec_padatas(padata))
    }
}

/// A time some whole seconds after `now`, as whole seconds; `None` when
/// it does not fit.
pub open spec fn spec_later_seconds(now: UnixTime, seconds: u64) -> Option<i64> {
    if now.seconds + seconds > i64::MAX {
        None
    } else {
        Some((now.seconds + seconds) as i64)
    }
}

/// The AS-REQ bytes for a client, service and options: `EmptyEtypes` when
/// no encryption type is asked for, `TimeOverflow` when an end time does
/// not fit or has no calendar date; else the encoded request, `renewable`
/// added to the KDC options when a renewable lifetime is asked for.
pub open spec fn spec_as_req(client: PrincipalModel, service: PrincipalModel, o: AsReqOptions) -> Result<
    Seq<u8>,
    Error,
> {
    if o.etypes@.len() == 0 {
        Err(Error::EmptyEtypes)
    } else {
        match spec_later_seconds(o.now, o.ticket_lifetime) {
            None => Err(Error::TimeOverflow),
            Some(till) => {
                let renew = match o.renew_lifetime {
                    None => Some(None),
                    Some(r) => match spec_later_seconds(o.now, r) {
                        None => None,
                        Some(s) => Some(Some(s)),
                    },
                };
                match renew {
                    None => Err(Error::TimeOverflow),
                    Some(renew) => match spec_time_content(till) {
                        None => Err(Error::TimeOverflow),
                        Some(till_der) => {
                            let rtime = match renew {
                                None => Some(None),
                                Some(s) => match spec_time_content(s) {
                                    None => None,
                                    Some(c) => Some(Some(c)),
                                },
                            };
                            match rtime {
                                None => Err(Error::TimeOverflow),
                                Some(rtime) => Ok(
                                    spec_kdc_req_der(
                                        AS_REQ_MSG_TYPE,
                                        spec_padata_field(o.padata@),
                                        spec_req_body_der(
                                            ReqBodyModel {
                                                kdc_options: if o.renew_lifetime is Some {
                                                    o.kdc_option_bits | super::KDC_OPTION_RENEWABLE
                                                } else {
                                                    o.kdc_option_bits
                                                },
                                                cname: client,
                                                realm: client.realm,
                                                sname: service,
                                                till: till_der,
                                                rtime,
                                                nonce: o.nonce,
                                                etypes: o.etypes@,
                                                additional_tickets: Seq::empty(),
                                            },
                                        ),
                                    ),
                                ),
                            }
                        },
                    },
                }
            },
        }
    }
}

/// The byte sequences held by some vectors.
pub open spec fn spec_byte_views(v: Seq<Vec<u8>>) -> Seq<Seq<u8>> {
    Seq::new(v.len(), |i: int| v[i]@)
}

fn flatten_bytes(v: &Vec<Vec<u8>>) -> (r: Vec<u8>)
    ensures
        r@ == crate::asn1::spec_flatten(spec_byte_views(v@)),
{
    let ghost views = spec_byte_views(v@);
    let mut out: Vec<u8> = Vec::new();
    let mut i: usize = 0;
    while i < v.len()
        invariant
            i <= v@.len(),
            views == spec_byte_views(v@),
            out@ == crate::asn1::spec_flatten(views.subrange(0, i as int)),
        decreases v@.len() - i,
    {
        assert(views.subrange(0, i + 1).drop_last() =~= views.subrange(0, i as int));
        extend_bytes(&mut out, v[i].as_slice());
        i = i + 1;
    }
    assert(views.subrange(0, v@.len() as int) =~= views);
    out
}

fn later_seconds(now: UnixTime, seconds: u64) -> (r: Option<i64>)
    ensures
        r == spec_later_seconds(now, seconds),
{
    let sum: i128 = now.seconds as i128 + seconds as i128;
    if sum > 0x7fff_ffff_ffff_ffff {
        None
    } else {
        Some(sum as i64)
    }
}

fn push_general_string(out: &mut Vec<u8>, s: &str)
    ensures
        final(out)@ == old(out)@ + spec_general_string(s@),
{
    push_tlv(out, TAG_GENERAL_STRING, s.as_bytes());
}

fn strings_der(cs: &Vec<String>) -> (r: Vec<u8>)
    ensures
        r@ == spec_strings(crate::text::spec_string_views(cs@)),
{
    let ghost views = crate::text::spec_string_views(cs@);
    let mut out: Vec<u8> = Vec::new();
    let mut i: usize = 0;
    while i < cs.len()
        invariant
            i <= cs@.len(),
            views == crate::text::spec_string_views(cs@),
            out@ == spec_strings(views.subrange(0, i as int)),
        decreases cs@.len() - i,
    {
        assert(views.subrange(0, i + 1).drop_last() =~= views.subrange(0, i as int));
        push_general_string(&mut out, cs[i].as_str());
        i = i + 1;
    }
    assert(views.subrange(0, cs@.len() as int) =~= views);
    out
}

pub(crate) fn principal_name_der(p: &Principal) -> (r: Vec<u8>)
    ensures
        r@ == spec_principal_name_der(p@),
{
    let mut name_type: Vec<u8> = Vec::new();
    push_der_int(&mut name_type, p.name_type as i64);
    let strings = strings_der(&p.components);
    let mut seq: Vec<u8> = Vec::new();
    push_tlv(&mut seq, TAG_SEQUENCE, strings.as_slice());
    let mut content: Vec<u8> = Vec::new();
    push_tlv(&mut content, 0xa0, name_type.as_slice());
    push_tlv(&mut content, 0xa1, seq.as_slice());
    let mut out: Vec<u8> = Vec::new();
    push_tlv(&mut out, TAG_SEQUENCE, content.as_slice());
    proof {
        assert(content@ =~= spec_ctx(0, spec_der_int(p.name_type as int)) + spec_ctx(
            1,
            spec_tlv(TAG_SEQUENCE, spec_strings(p@.components)),
        ));
    }
    out
}

fn ints_der(v: &Vec<i32>) -> (r: Vec<u8>)
    ensures
        r@ == spec_ints(v@),
{
    let mut out: Vec<u8> = Vec::new();
    let mut i: usize = 0;
    while i < v.len()
        invariant
            i <= v@.len(),
            out@ == spec_ints(v@.subrange(0, i as int)),
        decreases v@.len() - i,
    {
        assert(v@.subrange(0, i + 1).drop_last() =~= v@.subrange(0, i as int));
        push_der_int(&mut out, v[i] as i64);
        i = i + 1;
    }
    assert(v@.subrange(0, v@.len() as int) =~= v@);
    out
}

fn padata_der(p: &PaData) -> (r: Vec<u8>)
    ensures
        r@ == spec_padata_der(*p),
{
    padata_bytes(p.padata_type, p.padata_value.as_slice())
}

pub(crate) fn padata_bytes(padata_type: i32, value: &[u8]) -> (r: Vec<u8>)
    ensures
        r@ == spec_padata_bytes(padata_type, value@),
{
    let mut t: Vec<u8> = Vec::new();
    push_der_int(&mut t, padata_type as i64);
    let mut v: Vec<u8> = Vec::new();
    push_tlv(&mut v, TAG_OCTET_STRING, value);
    let mut content: Vec<u8> = Vec::new();
    push_tlv(&mut content, 0xa1, t.as_slice());
    push_tlv(&mut content, 0xa2, v.as_slice());
    let mut out: Vec<u8> = Vec::new();
    push_tlv(&mut out, TAG_SEQUENCE, content.as_slice());
    proof {
        assert(content@ =~= spec_ctx(1, spec_der_int(padata_type as int)) + spec_ctx(
            2,
            spec_tlv(TAG_OCTET_STRING, value@),
        ));
    }
    out
}

fn padatas_der(ps: &Vec<PaData>) -> (r: Vec<u8>)
    ensures
        r@ == spec_padatas(ps@),
{
    let mut out: Vec<u8> = Vec::new();
    let mut i: usize = 0;
    while i < ps.len()
        invariant
            i <= ps@.len(),
            out@ == spec_padatas(ps@.subrange(0, i as int)),
        decreases ps@.len() - i,
    {
        assert(ps@.subrange(0, i + 1).drop_last() =~= ps@.subrange(0, i as int));
        let d = padata_der(&ps[i]);
        extend_bytes(&mut out, d.as_slice());
        i = i + 1;
    }
    assert(ps@.subrange(0, ps@.len() as int) =~= ps@);
    out
}

fn time_field(out: &mut Vec<u8>, tag: u8, content: &Vec<u8>)
    ensures
        final(out)@ == old(out)@ + spec_tlv(tag, spec_tlv(TAG_GENERALIZED_TIME, content@)),
{
    let mut t: Vec<u8> = Vec::new();
    push_tlv(&mut t, TAG_GENERALIZED_TIME, content.as_slice());
    push_tlv(out, tag, t.as_slice());
}

fn req_body_der(
    kdc_options: u32,
    cname: &Principal,
    realm: &str,
    sname: &Principal,
    till: &Vec<u8>,
    rtime: &Option<Vec<u8>>,
    nonce: u32,
    etypes: &Vec<i32>,
    additional_tickets: &Vec<Vec<u8>>,
) -> (r: Vec<u8>)
    ensures
        r@ == spec_req_body_der(
            ReqBodyModel {
                kdc_options,
                cname: cname@,
                realm: realm@,
                sname: sname@,
                till: till@,
                rtime: match rtime {
                    Some(v) => Some(v@),
                    None => None,
                },
                nonce,
                etypes: etypes@,
                additional_tickets: spec_byte_views(additional_tickets@),
            },
        ),
{
    let mut opts: Vec<u8> = Vec::new();
    opts.push(0u8);
    push_u32(&mut opts, kdc_options, Endian::Big);
    let mut opts_der: Vec<u8> = Vec::new();
    push_tlv(&mut opts_der, TAG_BIT_STRING, opts.as_slice());
    let cname_der = principal_name_der(cname);
    let mut realm_der: Vec<u8> = Vec::new();
    push_general_string(&mut realm_der, realm);
    let sname_der = principal_name_der(sname);
    let mut nonce_der: Vec<u8> = Vec::new();
    push_der_int(&mut nonce_der, nonce as i64);
    let etypes_content = ints_der(etypes);
    let mut etypes_der: Vec<u8> = Vec::new();
    push_tlv(&mut etypes_der, TAG_SEQUENCE, etypes_content.as_slice());
    let mut content: Vec<u8> = Vec::new();
    push_tlv(&mut content, 0xa0, opts_der.as_slice());
    push_tlv(&mut content, 0xa1, cname_der.as_slice());
    push_tlv(&mut content, 0xa2, realm_der.as_slice());
    push_tlv(&mut content, 0xa3, sname_der.as_slice());
    time_field(&mut content, 0xa5, till);
    let ghost before_rtime = content@;
    match rtime {
        Some(r) => time_field(&mut content, 0xa6, r),
        None => {},
    }
    push_tlv(&mut content, 0xa7, nonce_der.as_slice());
    push_tlv(&mut content, 0xa8, etypes_der.as_slice());
    let ghost before_tickets = content@;
    if additional_tickets.len() > 0 {
        let all = flatten_bytes(additional_tickets);
        let mut seq: Vec<u8> = Vec::new();
        push_tlv(&mut seq, TAG_SEQUENCE, all.as_slice());
        push_tlv(&mut content, 0xab, seq.as_slice());
    }
    let mut out: Vec<u8> = Vec::new();
    push_tlv(&mut out, TAG_SEQUENCE, content.as_slice());
    proof {
        assert(opts@ =~= seq![0u8] + spec_u32_bytes(kdc_options, Endian::Big));
        let rt = match rtime {
            Some(v) => spec_time_field(6, v@),
            None => Seq::<u8>::empty(),
        };
        let at = spec_byte_views(additional_tickets@);
        let tk = if at.len() == 0 {
            Seq::<u8>::empty()
        } else {
            spec_ctx(11, spec_tlv(TAG_SEQUENCE, crate::asn1::spec_flatten(at)))
        };
        assert(content@ =~= before_tickets + tk);
        assert(before_tickets =~= spec_ctx(0, spec_kdc_options_der(kdc_options)) + spec_ctx(
            1,
            spec_principal_name_der(cname@),
        ) + spec_ctx(2, spec_general_string(realm@)) + spec_ctx(3, spec_principal_name_der(sname@))
            + spec_time_field(5, till@) + rt + spec_ctx(7, spec_der_int(nonce as int)) + spec_ctx(
            8,
            spec_tlv(TAG_SEQUENCE, spec_ints(etypes@)),
        ));
    }
    out
}

fn kdc_req_der(msg_type: u8, padata: &Option<Vec<u8>>, body: &Vec<u8>) -> (r: Vec<u8>)
    requires
        msg_type < 31,
    ensures
        r@ == spec_kdc_req_der(
            msg_type,
            match padata {
                Some(p) => Some(p@),
                None => None,
            },
            body@,
        ),
{
    let mut content: Vec<u8> = Vec::new();
    let mut pvno: Vec<u8> = Vec::new();
    push_der_int(&mut pvno, KRB5_PVNO);
    push_tlv(&mut content, 0xa1, pvno.as_slice());
    let mut mt: Vec<u8> = Vec::new();
    push_der_int(&mut mt, msg_type as i64);
    push_tlv(&mut content, 0xa2, mt.as_slice());
    let ghost before = content@;
    match padata {
        Some(pas) => {
            let mut seq: Vec<u8> = Vec::new();
            push_tlv(&mut seq, TAG_SEQUENCE, pas.as_slice());
            push_tlv(&mut content, 0xa3, seq.as_slice());
        },
        None => {},
    }
    push_tlv(&mut content, 0xa4, body.as_slice());
    let mut seq: Vec<u8> = Vec::new();
    push_tlv(&mut seq, TAG_SEQUENCE, content.as_slice());
    let mut out: Vec<u8> = Vec::new();
    push_tlv(&mut out, 0x60 + msg_type, seq.as_slice());
    proof {
        let pd = match padata {
            None => Seq::<u8>::empty(),
            Some(p) => spec_ctx(3, spec_tlv(TAG_SEQUENCE, p@)),
        };
        assert(content@ =~= spec_ctx(1, spec_der_int(KRB5_PVNO as int)) + spec_ctx(
            2,
            spec_der_int(msg_type as int),
        ) + pd + spec_ctx(4, body@));
    }
    out
}

/// Build an AS-REQ for an explicit service principal.
pub fn build_as_req(client: Principal, service: Principal, options: AsReqOptions) -> (r: Result<
    BuiltAsReq,
    Error,
>)
    ensures
        match spec_as_req(client@, service@, options) {
            Ok(der) => r matches Ok(b) && b.der@ == der && b.client@ == client@ && b.service@
                == service@ && b.nonce == options.nonce,
            Err(e) => r matches Err(x) && x == e,
        },
{
    if options.etypes.len() == 0 {
        return Err(Error::EmptyEtypes);
    }
    let till = match later_seconds(options.now, options.ticket_lifetime) {
        Some(t) => t,
        None => return Err(Error::TimeOverflow),
    };
    let renew: Option<i64> = match options.renew_lifetime {
        None => None,
        Some(r) => match later_seconds(options.now, r) {
            Some(s) => Some(s),
            None => return Err(Error::TimeOverflow),
        },
    };
    let till_der = match time_content(till) {
        Some(c) => c,
        None => return Err(Error::TimeOverflow),
    };
    let rtime: Option<Vec<u8>> = match renew {
        None => None,
        Some(s) => match time_content(s) {
            Some(c) => Some(c),
            None => return Err(Error::TimeOverflow),
        },
    };
    let kdc_option_bits = request_kdc_option_bits(options.kdc_option_bits, options.renew_lifetime);
    let body = req_body_der(
        kdc_option_bits,
        &client,
        client.realm.as_str(),
        &service,
        &till_der,
        &rtime,
        options.nonce,
        &options.etypes,
        &Vec::new(),
    );
    let padata: Option<Vec<u8>> = if options.padata.len() == 0 {
        None
    } else {
        Some(padatas_der(&options.padata))
    };
    let der = kdc_req_der(AS_REQ_MSG_TYPE, &padata, &body);
    Ok(BuiltAsReq { der, client, service, nonce: options.nonce })
}

/// Build an AS-REQ for the client's ticket-granting service.
pub fn build_tgt_as_req(client: Principal, options: AsReqOptions) -> (r: Result<BuiltAsReq, Error>)
    ensures
        match spec_as_req(
            client@,
            PrincipalModel {
                realm: client@.realm,
                name_type: super::principal::KRB_NT_SRV_INST,
                components: seq!["krbtgt"@, client@.realm],
            },
            options,
        ) {
            Ok(der) => r matches Ok(b) && b.der@ == der && b.client@ == client@ && b.nonce
                == options.nonce,
            Err(e) => r matches Err(x) && x == e,
        },
{
    let service = Principal::tgt_service(crate::text::copy_string(&client.realm));
    build_as_req(client, service, options)
}

/// Key usage of the TGS-REQ body checksum in the authenticator.
pub const TGS_REQ_AUTHENTICATOR_CHECKSUM_USAGE: u32 = 6;

/// Key usage of the TGS-REQ authenticator.
pub const TGS_REQ_AUTHENTICATOR_USAGE: u32 = 7;

/// PA-TGS-REQ: the padata type that carries the AP-REQ of a TGS-REQ.
pub const PA_TGS_REQ: i32 = 1;

/// The end times of a request: `till`, and the renewable end time when
/// asked for, as GeneralizedTime contents; `None` when one does not fit
/// or has no calendar date.
pub open spec fn spec_request_times(now: UnixTime, lifetime: u64, renew: Option<u64>) -> Option<
    (Seq<u8>, Option<Seq<u8>>),
> {
    match spec_later_seconds(now, lifetime) {
        None => None,
        Some(till) => {
            let r = match renew {
                None => Some(None),
                Some(x) => match spec_later_seconds(now, x) {
                    None => None,
                    Some(s) => Some(Some(s)),
                },
            };
            match r {
                None => None,
                Some(r) => match spec_time_content(till) {
                    None => None,
                    Some(t) => match r {
                        None => Some((t, None)),
                        Some(s) => match spec_time_content(s) {
                            None => None,
                            Some(c) => Some((t, Some(c))),
                        },
                    },
                },
            }
        },
    }
}

fn request_times(now: UnixTime, lifetime: u64, renew: Option<u64>) -> (r: Option<(Vec<u8>, Option<Vec<u8>>)>)
    ensures
        match spec_request_times(now, lifetime, renew) {
            None => r is None,
            Some((t, rt)) => r matches Some((t2, rt2)) && t2@ == t && match rt {
                None => rt2 is None,
                Some(c) => rt2 matches Some(c2) && c2@ == c,
            },
        },
{
    let till = match later_seconds(now, lifetime) {
        Some(t) => t,
        None => return None,
    };
    let renew_s: Option<i64> = match renew {
        None => None,
        Some(x) => match later_seconds(now, x) {
            Some(s) => Some(s),
            None => return None,
        },
    };
    let t = match time_content(till) {
        Some(c) => c,
        None => return None,
    };
    match renew_s {
        None => Some((t, None)),
        Some(s) => match time_content(s) {
            Some(c) => Some((t, Some(c))),
            None => None,
        },
    }
}

/// The TGS-REQ body of a request made with a TGT.
pub open spec fn spec_tgs_body(
    tgt: AsRepSession,
    kdc_realm: Seq<char>,
    service: PrincipalModel,
    o: TgsReqOptions,
    till: Seq<u8>,
    rtime: Option<Seq<u8>>,
) -> Seq<u8> {
    spec_req_body_der(
        ReqBodyModel {
            kdc_options: if o.renew_lifetime is Some {
                o.kdc_option_bits | super::KDC_OPTION_RENEWABLE
            } else {
                o.kdc_option_bits
            },
            cname: tgt.client@,
            realm: kdc_realm,
            sname: service,
            till,
            rtime,
            nonce: o.nonce,
            etypes: o.etypes@,
            additional_tickets: spec_byte_views(o.additional_tickets@),
        },
    )
}

/// The TGS-REQ bytes for a TGT, KDC realm, service and options:
/// `EmptyEtypes`, `InvalidTicket` when the TGT's DER cannot be read,
/// `TimeOverflow`, `UnsupportedEtype` or the checksum's or encryption's
/// error; else the request whose first PA-DATA is the AP-REQ with an
/// authenticator (in the ticket's realm, with the checksum of the body
/// under the TGT session key) and whose other PA-DATA are the options'.
pub open spec fn spec_tgs_req(
    tgt: AsRepSession,
    kdc_realm: Seq<char>,
    service: PrincipalModel,
    o: TgsReqOptions,
    timestamp: UnixTime,
    cusec: u32,
    confounder: Seq<u8>,
) -> Result<Seq<u8>, Error> {
    if o.etypes@.len() == 0 {
        Err(Error::EmptyEtypes)
    } else {
        match (spec_ticket_info(tgt.ticket@), spec_ticket_realm(tgt.ticket@)) {
            (Some(info), Some(realm)) => match spec_request_times(o.now, o.ticket_lifetime, o.renew_lifetime) {
                None => Err(Error::TimeOverflow),
                Some((till, rtime)) => {
                    let body = spec_tgs_body(tgt, kdc_realm, service, o, till, rtime);
                    match spec_etype_from_id(tgt.session_key.etype) {
                        None => Err(Error::UnsupportedEtype(tgt.session_key.etype)),
                        Some(e) => if !spec_len_fits(body.len() + 4) {
                            Err(Error::MessageTooLarge)
                        } else {
                            match e.spec_checksum(
                                tgt.session_key.value@,
                                body,
                                TGS_REQ_AUTHENTICATOR_CHECKSUM_USAGE,
                            ) {
                                Err(ce) => Err(Error::Crypto(ce)),
                                Ok(ck) => match spec_time_content(timestamp.seconds) {
                                    None => Err(Error::TimeOverflow),
                                    Some(ctime) => match spec_sealed(
                                        tgt.session_key@,
                                        info.kvno,
                                        spec_authenticator_der(
                                            realm,
                                            tgt.client@,
                                            Some((e.spec_checksum_type_id(), ck)),
                                            cusec,
                                            ctime,
                                            None,
                                            None,
                                        ),
                                        TGS_REQ_AUTHENTICATOR_USAGE,
                                        confounder,
                                    ) {
                                        Err(x) => Err(x),
                                        Ok(enc) => Ok(
                                            spec_kdc_req_der(
                                                TGS_REQ_MSG_TYPE,
                                                Some(
                                                    spec_padata_bytes(
                                                        PA_TGS_REQ,
                                                        spec_ap_req_der(0, tgt.ticket@, enc),
                                                    ) + spec_padatas(o.padata@),
                                                ),
                                                body,
                                            ),
                                        ),
                                    },
                                },
                            }
                        },
                    }
                },
            },
            _ => Err(Error::InvalidTicket),
        }
    }
}

/// Build a TGS-REQ for an explicit KDC realm, timestamp and confounder.
pub fn build_tgs_req_for_realm_with_confounder(
    tgt: &AsRepSession,
    kdc_realm: String,
    service: Principal,
    options: TgsReqOptions,
    timestamp: UnixTime,
    cusec: u32,
    confounder: &[u8],
) -> (r: Result<BuiltTgsReq, Error>)
    ensures
        match spec_tgs_req(*tgt, kdc_realm@, service@, options, timestamp, cusec, confounder@) {
            Ok(der) => r matches Ok(b) && b.der@ == der && b.client@ == tgt.client@ && b.service@
                == service@ && b.kdc_realm@ == kdc_realm@ && b.nonce == options.nonce,
            Err(e) => r == Err::<BuiltTgsReq, Error>(e),
        },
{
    if options.etypes.len() == 0 {
        return Err(Error::EmptyEtypes);
    }
    let info = ticket_info(tgt.ticket.as_slice());
    let realm = ticket_realm(tgt.ticket.as_slice());
    let (info, realm) = match (info, realm) {
        (Some(i), Some(r)) => (i, r),
        _ => return Err(Error::InvalidTicket),
    };
    let (till, rtime) = match request_times(options.now, options.ticket_lifetime, options.renew_lifetime) {
        Some(x) => x,
        None => return Err(Error::TimeOverflow),
    };
    let kdc_option_bits = request_kdc_option_bits(options.kdc_option_bits, options.renew_lifetime);
    let body = req_body_der(
        kdc_option_bits,
        &tgt.client,
        kdc_realm.as_str(),
        &service,
        &till,
        &rtime,
        options.nonce,
        &options.etypes,
        &options.additional_tickets,
    );
    let etype = match KerberosEtype::from_etype_id(tgt.session_key.etype) {
        Some(e) => e,
        None => return Err(Error::UnsupportedEtype(tgt.session_key.etype)),
    };
    if body.len() > (isize::MAX as usize) - 4 {
        return Err(Error::MessageTooLarge);
    }
    let checksum = match etype.checksum(
        tgt.session_key.value.as_slice(),
        body.as_slice(),
        TGS_REQ_AUTHENTICATOR_CHECKSUM_USAGE,
    ) {
        Ok(c) => c,
        Err(e) => return Err(Error::Crypto(e)),
    };
    let ctime = match time_content(timestamp.seconds) {
        Some(c) => c,
        None => return Err(Error::TimeOverflow),
    };
    let plain = authenticator_der(
        realm.as_slice(),
        &tgt.client,
        Some((etype.checksum_type_id(), checksum.as_slice())),
        cusec,
        &ctime,
        None,
        None,
    );
    let enc = match seal(&tgt.session_key, info.kvno, plain.as_slice(), TGS_REQ_AUTHENTICATOR_USAGE, confounder) {
        Ok(e) => e,
        Err(e) => return Err(e),
    };
    let ap = ap_req_der(0, tgt.ticket.as_slice(), enc.as_slice());
    let mut padata = padata_bytes(PA_TGS_REQ, ap.as_slice());
    let rest = padatas_der(&options.padata);
    extend_bytes(&mut padata, rest.as_slice());
    let padata_field: Option<Vec<u8>> = Some(padata);
    let der = kdc_req_der(TGS_REQ_MSG_TYPE, &padata_field, &body);
    let client = super::ap_req::copy_principal(&tgt.client);
    Ok(BuiltTgsReq { der, client, service, kdc_realm, nonce: options.nonce })
}

} // verus!
