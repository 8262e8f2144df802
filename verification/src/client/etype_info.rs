//! The key hints of a KDC's method data: ETYPE-INFO2 and ETYPE-INFO
//! entries (RFC 4120 section 5.2.7.4-5), read from DER into the encryption
//! type, salt and string-to-key parameters a password key is derived with.

use vstd::prelude::*;

use vstd::utf8::{decode_utf8, valid_utf8};

use super::ap_req::{read_tlv, spec_read_tlv};
use super::kdc_rep::{
    find, int_field, krb_error_code, message_body, octets_at, spec_find, spec_fits_i32,
    spec_int_field, spec_krb_error_code, spec_message_body, spec_octets_at, spec_string_at,
    string_at,
};
use super::request::PaData;
use super::{Error, PreauthKeyInfo};
use crate::text::str_from_utf8;

verus! {

/// PA-DATA type of ETYPE-INFO.
pub const PA_ETYPE_INFO: i32 = 11;

/// PA-DATA type of ETYPE-INFO2.
pub const PA_ETYPE_INFO2: i32 = 19;

/// A key hint as plain values: encryption type, salt, string-to-key
/// parameters.
pub open spec fn spec_key_info_view(k: PreauthKeyInfo) -> (i32, Option<Seq<char>>, Option<Seq<u8>>) {
    (
        k.etype,
        match k.salt {
            Some(s) => Some(s@),
            None => None,
        },
        match k.s2kparams {
            Some(v) => Some(v@),
            None => None,
        },
    )
}

/// The salt in `[a, b)`: a KerberosString in ETYPE-INFO2, an OCTET STRING
/// holding UTF-8 in ETYPE-INFO.
pub open spec fn spec_salt_at(s: Seq<u8>, a: int, b: int, info2: bool) -> Option<Seq<char>> {
    if info2 {
        spec_string_at(s, a, b)
    } else {
        match spec_octets_at(s, a, b) {
            Some(o) => if valid_utf8(o) {
                Some(decode_utf8(o))
            } else {
                None
            },
            None => None,
        }
    }
}

/// One entry with content `[a, b)`: `[0]` the encryption type (an Int32),
/// `[1]` an optional salt, and in ETYPE-INFO2 `[2]` optional string-to-key
/// parameters.
pub open spec fn spec_entry(s: Seq<u8>, a: int, b: int, info2: bool) -> Option<
    (i32, Option<Seq<char>>, Option<Seq<u8>>),
> {
    match spec_int_field(s, a, b, 0xa0) {
        Some(e) => if !spec_fits_i32(e) {
            None
        } else {
            let salt = match spec_find(s, a, b, 0xa1) {
                None => Some(None),
                Some((x, y)) => match spec_salt_at(s, x, y, info2) {
                    Some(v) => Some(Some(v)),
                    None => None,
                },
            };
            let s2k = if info2 {
                match spec_find(s, a, b, 0xa2) {
                    None => Some(None),
                    Some((x, y)) => match spec_octets_at(s, x, y) {
                        Some(v) => Some(Some(v)),
                        None => None,
                    },
                }
            } else {
                Some(None)
            };
            match (salt, s2k) {
                (Some(sa), Some(k)) => Some((e as i32, sa, k)),
                _ => None,
            }
        },
        None => None,
    }
}

/// The entries from `pos` up to `end`, each a SEQUENCE, in order.
pub open spec fn spec_entries_from(s: Seq<u8>, pos: int, end: int, info2: bool) -> Option<
    Seq<(i32, Option<Seq<char>>, Option<Seq<u8>>)>,
>
    decreases end - pos,
{
    if pos >= end {
        if pos == end {
            Some(Seq::empty())
        } else {
            None
        }
    } else {
        match spec_read_tlv(s, pos) {
            Some((0x30, ga, b)) if pos < b <= end => match (
                spec_entry(s, ga, b, info2),
                spec_entries_from(s, b, end, info2),
            ) {
                (Some(x), Some(rest)) => Some(seq![x] + rest),
                _ => None,
            },
            _ => None,
        }
    }
}

/// An ETYPE-INFO2 (or ETYPE-INFO) value: a SEQUENCE OF entries filling
/// the whole value.
pub open spec fn spec_etype_info(v: Seq<u8>, info2: bool) -> Option<
    Seq<(i32, Option<Seq<char>>, Option<Seq<u8>>)>,
> {
    match spec_read_tlv(v, 0) {
        Some((0x30, a, b)) if b == v.len() => spec_entries_from(v, a, b, info2),
        _ => None,
    }
}

/// The hints of every PA-DATA of type `ty` among the first `n`, in order.
pub open spec fn spec_hints_of_type(ps: Seq<(i32, Seq<u8>)>, n: int, ty: i32, info2: bool) -> Option<
    Seq<(i32, Option<Seq<char>>, Option<Seq<u8>>)>,
>
    decreases n,
{
    if n <= 0 {
        Some(Seq::empty())
    } else {
        match spec_hints_of_type(ps, n - 1, ty, info2) {
            None => None,
            Some(acc) => if ps[n - 1].0 == ty {
                match spec_etype_info(ps[n - 1].1, info2) {
                    Some(es) => Some(acc + es),
                    None => None,
                }
            } else {
                Some(acc)
            },
        }
    }
}

/// The key hints of method data: every ETYPE-INFO2 entry, in order, then
/// every ETYPE-INFO entry; `None` when one of those values does not read.
pub open spec fn spec_method_data_hints(ps: Seq<(i32, Seq<u8>)>) -> Option<
    Seq<(i32, Option<Seq<char>>, Option<Seq<u8>>)>,
> {
    match (
        spec_hints_of_type(ps, ps.len() as int, PA_ETYPE_INFO2, true),
        spec_hints_of_type(ps, ps.len() as int, PA_ETYPE_INFO, false),
    ) {
        (Some(a), Some(b)) => Some(a + b),
        _ => None,
    }
}

fn salt_at(s: &[u8], a: usize, b: usize, info2: bool) -> (r: Option<String>)
    ensures
        match spec_salt_at(s@, a as int, b as int, info2) {
            Some(v) => r matches Some(x) && x@ == v,
            None => r is None,
        },
{
    if info2 {
        string_at(s, a, b)
    } else {
        match octets_at(s, a, b) {
            Some(o) => match str_from_utf8(o.as_slice()) {
                Some(text) => Some(text.to_owned()),
                None => None,
            },
            None => None,
        }
    }
}

fn entry(s: &[u8], a: usize, b: usize, info2: bool) -> (r: Option<PreauthKeyInfo>)
    ensures
        match spec_entry(s@, a as int, b as int, info2) {
            Some(v) => r matches Some(x) && spec_key_info_view(x) == v,
            None => r is None,
        },
{
    let e = match int_field(s, a, b, 0xa0) {
        Some(e) => e,
        None => return None,
    };
    if e < i32::MIN as i64 || e > i32::MAX as i64 {
        return None;
    }
    let salt = match find(s, a, b, 0xa1) {
        None => None,
        Some((x, y)) => match salt_at(s, x, y, info2) {
            Some(v) => Some(v),
            None => return None,
        },
    };
    let s2kparams = if info2 {
        match find(s, a, b, 0xa2) {
            None => None,
            Some((x, y)) => match octets_at(s, x, y) {
                Some(v) => Some(v),
                None => return None,
            },
        }
    } else {
        None
    };
    Some(PreauthKeyInfo { etype: e as i32, salt, s2kparams })
}

fn entries_from(s: &[u8], pos: usize, end: usize, info2: bool, out: &mut Vec<PreauthKeyInfo>) -> (r: bool)
    ensures
        match spec_entries_from(s@, pos as int, end as int, info2) {
            Some(v) => r && final(out)@.map_values(|k: PreauthKeyInfo| spec_key_info_view(k))
                == old(out)@.map_values(|k: PreauthKeyInfo| spec_key_info_view(k)) + v,
            None => !r,
        },
{
    let ghost start = old(out)@.map_values(|k: PreauthKeyInfo| spec_key_info_view(k));
    let mut p = pos;
    while p < end
        invariant
            pos <= p,
            spec_entries_from(s@, pos as int, end as int, info2) == match spec_entries_from(
                s@,
                p as int,
                end as int,
                info2,
            ) {
                Some(rest) => Some(
                    out@.map_values(|k: PreauthKeyInfo| spec_key_info_view(k)).subrange(
                        start.len() as int,
                        out@.len() as int,
                    ) + rest,
                ),
                None => None::<Seq<(i32, Option<Seq<char>>, Option<Seq<u8>>)>>,
            },
            out@.len() >= start.len(),
            out@.map_values(|k: PreauthKeyInfo| spec_key_info_view(k)).subrange(0, start.len() as int)
                == start,
        decreases end - p,
    {
        let (t, ga, b) = match read_tlv(s, p) {
            Some(x) => x,
            None => return false,
        };
        if t != 0x30 || b <= p || b > end {
            return false;
        }
        let x = match entry(s, ga, b, info2) {
            Some(x) => x,
            None => return false,
        };
        let ghost before = out@.map_values(|k: PreauthKeyInfo| spec_key_info_view(k));
        out.push(x);
        proof {
            let now = out@.map_values(|k: PreauthKeyInfo| spec_key_info_view(k));
            assert(now =~= before.push(spec_key_info_view(x)));
            assert(now.subrange(0, start.len() as int) =~= before.subrange(0, start.len() as int));
            let done = before.subrange(start.len() as int, before.len() as int);
            assert(now.subrange(start.len() as int, now.len() as int) =~= done.push(
                spec_key_info_view(x),
            ));
            match spec_entries_from(s@, b as int, end as int, info2) {
                Some(rest) => {
                    assert(done + (seq![spec_key_info_view(x)] + rest) =~= done.push(
                        spec_key_info_view(x),
                    ) + rest);
                },
                None => {},
            }
        }
        p = b;
    }
    if p != end {
        return false;
    }
    proof {
        let now = out@.map_values(|k: PreauthKeyInfo| spec_key_info_view(k));
        let done = now.subrange(start.len() as int, now.len() as int);
        assert(done + Seq::empty() =~= done);
        assert(now =~= now.subrange(0, start.len() as int) + done);
    }
    true
}

fn etype_info(v: &[u8], info2: bool, out: &mut Vec<PreauthKeyInfo>) -> (r: bool)
    ensures
        match spec_etype_info(v@, info2) {
            Some(es) => r && final(out)@.map_values(|k: PreauthKeyInfo| spec_key_info_view(k))
                == old(out)@.map_values(|k: PreauthKeyInfo| spec_key_info_view(k)) + es,
            None => !r,
        },
{
    match read_tlv(v, 0) {
        Some((t, a, b)) => if t == 0x30 && b == v.len() {
            entries_from(v, a, b, info2, out)
        } else {
            false
        },
        None => false,
    }
}

fn hints_of_type(ps: &[PaData], ty: i32, info2: bool, out: &mut Vec<PreauthKeyInfo>) -> (r: bool)
    ensures
        match spec_hints_of_type(ps@.map_values(|p: PaData| spec_padata_view(p)), ps@.len() as int, ty, info2) {
            Some(es) => r && final(out)@.map_values(|k: PreauthKeyInfo| spec_key_info_view(k))
                == old(out)@.map_values(|k: PreauthKeyInfo| spec_key_info_view(k)) + es,
            None => !r,
        },
{
    let ghost start = old(out)@.map_values(|k: PreauthKeyInfo| spec_key_info_view(k));
    let ghost pv = ps@.map_values(|p: PaData| spec_padata_view(p));
    let mut i: usize = 0;
    while i < ps.len()
        invariant
            i <= ps@.len(),
            pv == ps@.map_values(|p: PaData| spec_padata_view(p)),
            spec_hints_of_type(pv, i as int, ty, info2) matches Some(acc) && out@.map_values(
                |k: PreauthKeyInfo| spec_key_info_view(k),
            ) == start + acc,
        decreases ps@.len() - i,
    {
        let ghost acc = spec_hints_of_type(pv, i as int, ty, info2)->Some_0;
        assert(pv[i as int] == spec_padata_view(ps@[i as int]));
        if ps[i].padata_type == ty {
            if !etype_info(ps[i].padata_value.as_slice(), info2, out) {
                assert(spec_hints_of_type(pv, ps@.len() as int, ty, info2) is None) by {
                    lemma_hints_none_stays(pv, i as int + 1, ps@.len() as int, ty, info2);
                }
                return false;
            }
            proof {
                let es = spec_etype_info(ps@[i as int].padata_value@, info2)->Some_0;
                assert(start + acc + es =~= start + (acc + es));
            }
        }
        i = i + 1;
    }
    true
}

proof fn lemma_hints_none_stays(ps: Seq<(i32, Seq<u8>)>, k: int, n: int, ty: i32, info2: bool)
    requires
        0 <= k <= n,
        spec_hints_of_type(ps, k, ty, info2) is None,
    ensures
        spec_hints_of_type(ps, n, ty, info2) is None,
    decreases n - k,
{
    if k < n {
        lemma_hints_none_stays(ps, k + 1, n, ty, info2);
    }
}

/// The key hints of a KDC's method data: the entries of every ETYPE-INFO2
/// value, in order, then those of every ETYPE-INFO value; an
/// `InvalidReply` when one of those values does not read.
pub fn preauth_key_info_from_method_data(method_data: &[PaData]) -> (r: Result<
    Vec<PreauthKeyInfo>,
    Error,
>)
    ensures
        match spec_method_data_hints(method_data@.map_values(|p: PaData| spec_padata_view(p))) {
            Some(hs) => r matches Ok(v) && v@.map_values(|k: PreauthKeyInfo| spec_key_info_view(k))
                == hs,
            None => r == Err::<Vec<PreauthKeyInfo>, Error>(Error::InvalidReply),
        },
{
    let mut out: Vec<PreauthKeyInfo> = Vec::new();
    proof {
        assert(out@.map_values(|k: PreauthKeyInfo| spec_key_info_view(k)) =~= Seq::empty());
    }
    if !hints_of_type(method_data, PA_ETYPE_INFO2, true, &mut out) {
        return Err(Error::InvalidReply);
    }
    if !hints_of_type(method_data, PA_ETYPE_INFO, false, &mut out) {
        return Err(Error::InvalidReply);
    }
    proof {
        let a = spec_hints_of_type(
            method_data@.map_values(|p: PaData| spec_padata_view(p)),
            method_data@.len() as int,
            PA_ETYPE_INFO2,
            true,
        )->Some_0;
        assert(Seq::<(i32, Option<Seq<char>>, Option<Seq<u8>>)>::empty() + a =~= a);
    }
    Ok(out)
}

/// KDC error code asking for preauthentication, whose e-data carries
/// METHOD-DATA.
pub const KDC_ERR_PREAUTH_REQUIRED: i32 = 25;

/// A PA-DATA as plain values.
pub open spec fn spec_padata_view(p: PaData) -> (i32, Seq<u8>) {
    (p.padata_type, p.padata_value@)
}

/// One PA-DATA with content `[a, b)`: `[1]` its type (an Int32) and `[2]`
/// its value (an OCTET STRING).
pub open spec fn spec_padata(s: Seq<u8>, a: int, b: int) -> Option<(i32, Seq<u8>)> {
    match spec_int_field(s, a, b, 0xa1) {
        Some(t) => if !spec_fits_i32(t) {
            None
        } else {
            match spec_find(s, a, b, 0xa2) {
                Some((x, y)) => match spec_octets_at(s, x, y) {
                    Some(v) => Some((t as i32, v)),
                    None => None,
                },
                None => None,
            }
        },
        None => None,
    }
}

/// The PA-DATA from `pos` up to `end`, each a SEQUENCE, in order.
pub open spec fn spec_padata_from(s: Seq<u8>, pos: int, end: int) -> Option<Seq<(i32, Seq<u8>)>>
    decreases end - pos,
{
    if pos >= end {
        if pos == end {
            Some(Seq::empty())
        } else {
            None
        }
    } else {
        match spec_read_tlv(s, pos) {
            Some((0x30, ga, b)) if pos < b <= end => match (
                spec_padata(s, ga, b),
                spec_padata_from(s, b, end),
            ) {
                (Some(x), Some(rest)) => Some(seq![x] + rest),
                _ => None,
            },
            _ => None,
        }
    }
}

/// METHOD-DATA: a SEQUENCE OF PA-DATA filling the whole value.
pub open spec fn spec_method_data(v: Seq<u8>) -> Option<Seq<(i32, Seq<u8>)>> {
    match spec_read_tlv(v, 0) {
        Some((0x30, a, b)) if b == v.len() => spec_padata_from(v, a, b),
        _ => None,
    }
}

fn padata(s: &[u8], a: usize, b: usize) -> (r: Option<PaData>)
    ensures
        match spec_padata(s@, a as int, b as int) {
            Some(v) => r matches Some(x) && spec_padata_view(x) == v,
            None => r is None,
        },
{
    let t = match int_field(s, a, b, 0xa1) {
        Some(t) => t,
        None => return None,
    };
    if t < i32::MIN as i64 || t > i32::MAX as i64 {
        return None;
    }
    match find(s, a, b, 0xa2) {
        Some((x, y)) => match octets_at(s, x, y) {
            Some(v) => Some(PaData { padata_type: t as i32, padata_value: v }),
            None => None,
        },
        None => None,
    }
}

/// Decode DER METHOD-DATA, as carried in a KRB-ERROR's e-data; an
/// `InvalidReply` when it does not read.
pub fn decode_method_data(bytes: &[u8]) -> (r: Result<Vec<PaData>, Error>)
    ensures
        match spec_method_data(bytes@) {
            Some(ps) => r matches Ok(v) && v@.map_values(|p: PaData| spec_padata_view(p)) == ps,
            None => r == Err::<Vec<PaData>, Error>(Error::InvalidReply),
        },
{
    let (t, pos, end) = match read_tlv(bytes, 0) {
        Some(x) => x,
        None => return Err(Error::InvalidReply),
    };
    if t != 0x30 || end != bytes.len() {
        return Err(Error::InvalidReply);
    }
    let s = bytes;
    let mut out: Vec<PaData> = Vec::new();
    let mut p = pos;
    proof {
        assert(out@.map_values(|q: PaData| spec_padata_view(q)) =~= Seq::empty());
        assert(Seq::<(i32, Seq<u8>)>::empty() + spec_padata_from(s@, pos as int, end as int)->Some_0
            =~= spec_padata_from(s@, pos as int, end as int)->Some_0);
    }
    while p < end
        invariant
            pos <= p <= end,
            end == s@.len(),
            s@ == bytes@,
            spec_method_data(s@) == spec_padata_from(s@, pos as int, end as int),
            spec_padata_from(s@, pos as int, end as int) == match spec_padata_from(
                s@,
                p as int,
                end as int,
            ) {
                Some(rest) => Some(out@.map_values(|q: PaData| spec_padata_view(q)) + rest),
                None => None::<Seq<(i32, Seq<u8>)>>,
            },
        decreases end - p,
    {
        let (t, ga, b) = match read_tlv(s, p) {
            Some(x) => x,
            None => {
                assert(spec_padata_from(s@, p as int, end as int) is None);
                return Err(Error::InvalidReply);
            },
        };
        if t != 0x30 || b <= p || b > end {
            assert(spec_padata_from(s@, p as int, end as int) is None);
            return Err(Error::InvalidReply);
        }
        let x = match padata(s, ga, b) {
            Some(x) => x,
            None => {
                assert(spec_padata_from(s@, p as int, end as int) is None);
                return Err(Error::InvalidReply);
            },
        };
        let ghost before = out@.map_values(|q: PaData| spec_padata_view(q));
        out.push(x);
        proof {
            let now = out@.map_values(|q: PaData| spec_padata_view(q));
            assert(now =~= before.push(spec_padata_view(x)));
            match spec_padata_from(s@, b as int, end as int) {
                Some(rest) => {
                    assert(before + (seq![spec_padata_view(x)] + rest) =~= before.push(
                        spec_padata_view(x),
                    ) + rest);
                },
                None => {},
            }
        }
        p = b;
    }
    proof {
        let now = out@.map_values(|q: PaData| spec_padata_view(q));
        assert(now + Seq::empty() =~= now);
    }
    Ok(out)
}

/// The key hints of a KRB-ERROR: its error code, and for
/// `KDC_ERR_PREAUTH_REQUIRED` the hints of the METHOD-DATA in its e-data
/// (none without e-data); `None` when the reply or one of those values
/// does not read.
pub open spec fn spec_kdc_error_key_info(s: Seq<u8>) -> Option<
    (i32, Seq<(i32, Option<Seq<char>>, Option<Seq<u8>>)>),
> {
    match spec_krb_error_code(s) {
        None => None,
        Some(code) => if code != KDC_ERR_PREAUTH_REQUIRED {
            Some((code, Seq::empty()))
        } else {
            match spec_message_body(s, 0x7e) {
                None => None,
                Some((sa, sb)) => match spec_find(s, sa, sb, 0xac) {
                    None => Some((code, Seq::empty())),
                    Some((x, y)) => match spec_octets_at(s, x, y) {
                        None => None,
                        Some(e_data) => match spec_method_data(e_data) {
                            None => None,
                            Some(pds) => match spec_method_data_hints(pds) {
                                Some(hs) => Some((code, hs)),
                                None => None,
                            },
                        },
                    },
                },
            }
        },
    }
}

/// Read the error code of a KRB-ERROR and, for `KDC_ERR_PREAUTH_REQUIRED`,
/// the key hints of the METHOD-DATA in its e-data; an `InvalidReply` when
/// the reply or one of those values does not read.
pub fn kdc_error_key_info(bytes: &[u8]) -> (r: Result<(i32, Vec<PreauthKeyInfo>), Error>)
    ensures
        match spec_kdc_error_key_info(bytes@) {
            Some((code, hs)) => r matches Ok((c, v)) && c == code && v@.map_values(
                |k: PreauthKeyInfo| spec_key_info_view(k),
            ) == hs,
            None => r == Err::<(i32, Vec<PreauthKeyInfo>), Error>(Error::InvalidReply),
        },
{
    let code = match krb_error_code(bytes) {
        Some(c) => c,
        None => return Err(Error::InvalidReply),
    };
    if code != KDC_ERR_PREAUTH_REQUIRED {
        let none: Vec<PreauthKeyInfo> = Vec::new();
        assert(none@.map_values(|k: PreauthKeyInfo| spec_key_info_view(k)) =~= Seq::empty());
        return Ok((code, none));
    }
    let (sa, sb) = match message_body(bytes, 0x7e) {
        Some(x) => x,
        None => return Err(Error::InvalidReply),
    };
    let e_data = match find(bytes, sa, sb, 0xac) {
        None => {
            let none: Vec<PreauthKeyInfo> = Vec::new();
            assert(none@.map_values(|k: PreauthKeyInfo| spec_key_info_view(k)) =~= Seq::empty());
            return Ok((code, none));
        },
        Some((x, y)) => match octets_at(bytes, x, y) {
            Some(v) => v,
            None => return Err(Error::InvalidReply),
        },
    };
    let method_data = decode_method_data(e_data.as_slice())?;
    let hints = preauth_key_info_from_method_data(method_data.as_slice())?;
    Ok((code, hints))
}

} // verus!
