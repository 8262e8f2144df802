//! KDC replies in DER: reading an AS-REP or TGS-REP, decrypting its
//! encrypted part with the reply key, reading that part, and holding the
//! result against the request it answers.

use vstd::prelude::*;

use vstd::utf8::{decode_utf8, valid_utf8};

use super::ap_req::{spec_be_value, spec_read_tlv};
use super::principal::{Principal, PrincipalModel};
use super::reply::{
    reply_session, spec_principal_name, spec_reply_result, BuiltAsReq, BuiltTgsReq, KdcReplyModel,
    KdcReplyParts,
};
use super::session::{principal_matches, spec_principal_matches};
use super::{AsRepSession, Error, UnixTime};
use crate::cipher_modes::spec_len_fits;
use crate::crypto::{spec_etype_from_id, KerberosEtype};
use crate::der::spec_trim_zero_padded_der;
use crate::keytab::{EncryptionKey, EncryptionKeyModel};
use crate::asn1::{spec_pow256, utc_seconds};
use crate::text::str_from_utf8;
use crate::wire::extend_bytes;

verus! {

/// The first element from `pos` up to `end` with the given tag, as the
/// range of its content; elements must lie within `end`.
pub open spec fn spec_find(s: Seq<u8>, pos: int, end: int, tag: u8) -> Option<(int, int)>
    decreases end - pos,
{
    if pos >= end || end > s.len() {
        None
    } else {
        match spec_read_tlv(s, pos) {
            None => None,
            Some((t, a, b)) => if b > end || b <= pos {
                None
            } else if t == tag {
                Some((a, b))
            } else {
                spec_find(s, b, end, tag)
            },
        }
    }
}

pub(crate) fn find(s: &[u8], pos: usize, end: usize, tag: u8) -> (r: Option<(usize, usize)>)
    ensures
        match spec_find(s@, pos as int, end as int, tag) {
            Some((a, b)) => r matches Some((x, y)) && x == a && y == b,
            None => r is None,
        },
{
    let mut p = pos;
    while p < end
        invariant
            pos <= p,
            spec_find(s@, pos as int, end as int, tag) == spec_find(s@, p as int, end as int, tag),
        decreases end - p,
    {
        if end > s.len() {
            return None;
        }
        match super::ap_req::read_tlv(s, p) {
            None => return None,
            Some((t, a, b)) => {
                if b > end || b <= p {
                    return None;
                }
                if t == tag {
                    return Some((a, b));
                }
                p = b;
            },
        }
    }
    None
}

/// The signed value of a two's complement INTEGER content of one to
/// five bytes (enough for every 32-bit field).
pub open spec fn spec_signed(c: Seq<u8>) -> Option<int> {
    if c.len() == 0 || c.len() > 5 {
        None
    } else if c[0] >= 0x80 {
        Some(spec_be_value(c) - spec_pow256(c.len()))
    } else {
        Some(spec_be_value(c) as int)
    }
}

/// The INTEGER in the field with the given tag, if it is one.
pub open spec fn spec_int_field(s: Seq<u8>, pos: int, end: int, tag: u8) -> Option<int> {
    match spec_find(s, pos, end, tag) {
        None => None,
        Some((a, b)) => match spec_read_tlv(s, a) {
            Some((0x02, ia, ib)) if ib == b => spec_signed(s.subrange(ia, ib)),
            _ => None,
        },
    }
}

proof fn lemma_be_value_bound(c: Seq<u8>)
    ensures
        spec_be_value(c) < spec_pow256(c.len()),
    decreases c.len(),
{
    if c.len() > 0 {
        lemma_be_value_bound(c.drop_last());
        let p = spec_pow256((c.len() - 1) as nat);
        assert(spec_be_value(c.drop_last()) * 256 + c.last() < p * 256) by (nonlinear_arith)
            requires
                spec_be_value(c.drop_last()) < p,
                c.last() < 256,
        {
        }
    }
}

proof fn lemma_pow256_mono(i: nat, j: nat)
    requires
        i <= j,
    ensures
        spec_pow256(i) <= spec_pow256(j),
    decreases j,
{
    if i < j {
        lemma_pow256_mono(i, (j - 1) as nat);
        assert(spec_pow256(j) == 256 * spec_pow256((j - 1) as nat));
    }
}

fn signed(s: &[u8], a: usize, b: usize) -> (r: Option<i64>)
    requires
        a <= b <= s@.len(),
    ensures
        match spec_signed(s@.subrange(a as int, b as int)) {
            Some(v) => r matches Some(x) && x == v,
            None => r is None,
        },
{
    let ghost c = s@.subrange(a as int, b as int);
    let n = b - a;
    if n == 0 || n > 5 {
        return None;
    }
    let mut v: u64 = 0;
    let mut p: u64 = 1;
    let mut i: usize = a;
    proof {
        reveal_with_fuel(spec_pow256, 7);
    }
    while i < b
        invariant
            a <= i <= b <= s@.len(),
            b - a <= 5,
            c == s@.subrange(a as int, b as int),
            v == spec_be_value(s@.subrange(a as int, i as int)),
            p == spec_pow256((i - a) as nat),
            v < p,
            p <= spec_pow256(5),
            spec_pow256(5) == 0x100_0000_0000,
        decreases b - i,
    {
        assert(s@.subrange(a as int, i + 1).drop_last() =~= s@.subrange(a as int, i as int));
        proof {
            lemma_be_value_bound(s@.subrange(a as int, i + 1));
            lemma_pow256_mono((i + 1 - a) as nat, 5);
            assert(spec_pow256((i + 1 - a) as nat) == 256 * spec_pow256((i - a) as nat));
        }
        v = v * 256 + s[i] as u64;
        p = p * 256;
        i = i + 1;
    }
    assert(s@.subrange(a as int, b as int) =~= c);
    if s[a] >= 0x80 {
        Some(v as i64 - p as i64)
    } else {
        Some(v as i64)
    }
}

pub(crate) fn int_field(s: &[u8], pos: usize, end: usize, tag: u8) -> (r: Option<i64>)
    ensures
        match spec_int_field(s@, pos as int, end as int, tag) {
            Some(v) => r matches Some(x) && x == v,
            None => r is None,
        },
{
    let (a, b) = match find(s, pos, end, tag) {
        Some(x) => x,
        None => return None,
    };
    match super::ap_req::read_tlv(s, a) {
        Some((t, ia, ib)) => if t == 0x02 && ib == b {
            signed(s, ia, ib)
        } else {
            None
        },
        None => None,
    }
}

/// The Kerberos string that is the whole of `[a, b)`, decoded as UTF-8.
pub open spec fn spec_string_at(s: Seq<u8>, a: int, b: int) -> Option<Seq<char>> {
    match spec_read_tlv(s, a) {
        Some((0x1b, ga, gb)) if gb == b && valid_utf8(s.subrange(ga, gb)) => Some(
            decode_utf8(s.subrange(ga, gb)),
        ),
        _ => None,
    }
}

pub(crate) fn string_at(s: &[u8], a: usize, b: usize) -> (r: Option<String>)
    ensures
        match spec_string_at(s@, a as int, b as int) {
            Some(v) => r matches Some(x) && x@ == v,
            None => r is None,
        },
{
    match super::ap_req::read_tlv(s, a) {
        Some((t, ga, gb)) => {
            if t != 0x1b || gb != b {
                return None;
            }
            match str_from_utf8(&s[ga..gb]) {
                Some(text) => Some(text.to_owned()),
                None => None,
            }
        },
        None => None,
    }
}

/// The Kerberos strings from `pos` up to `end`, in order.
pub open spec fn spec_strings_from(s: Seq<u8>, pos: int, end: int) -> Option<Seq<Seq<char>>>
    decreases end - pos,
{
    if pos >= end {
        if pos == end {
            Some(Seq::empty())
        } else {
            None
        }
    } else {
        match spec_read_tlv(s, pos) {
            Some((0x1b, _, b)) if pos < b <= end => match (
                spec_string_at(s, pos, b),
                spec_strings_from(s, b, end),
            ) {
                (Some(x), Some(rest)) => Some(seq![x] + rest),
                _ => None,
            },
            _ => None,
        }
    }
}

fn strings_from(s: &[u8], pos: usize, end: usize) -> (r: Option<Vec<String>>)
    ensures
        match spec_strings_from(s@, pos as int, end as int) {
            Some(v) => r matches Some(x) && crate::text::spec_string_views(x@) == v,
            None => r is None,
        },
{
    let mut out: Vec<String> = Vec::new();
    let mut p = pos;
    while p < end
        invariant
            pos <= p,
            spec_strings_from(s@, pos as int, end as int) == match spec_strings_from(
                s@,
                p as int,
                end as int,
            ) {
                Some(rest) => Some(crate::text::spec_string_views(out@) + rest),
                None => None::<Seq<Seq<char>>>,
            },
        decreases end - p,
    {
        let (t, _, b) = match super::ap_req::read_tlv(s, p) {
            Some(x) => x,
            None => return None,
        };
        if t != 0x1b || b <= p || b > end {
            return None;
        }
        let x = match string_at(s, p, b) {
            Some(x) => x,
            None => return None,
        };
        let ghost before = out@;
        out.push(x);
        proof {
            assert(crate::text::spec_string_views(out@) =~= crate::text::spec_string_views(before)
                + seq![x@]);
            match spec_strings_from(s@, b as int, end as int) {
                Some(rest) => {
                    assert(crate::text::spec_string_views(before) + (seq![x@] + rest)
                        =~= crate::text::spec_string_views(out@) + rest);
                },
                None => {},
            }
        }
        p = b;
    }
    if p != end {
        return None;
    }
    assert(crate::text::spec_string_views(out@) + Seq::<Seq<char>>::empty()
        =~= crate::text::spec_string_views(out@));
    Some(out)
}

/// Whether `v` fits an `i32`.
pub open spec fn spec_fits_i32(v: int) -> bool {
    i32::MIN <= v <= i32::MAX
}

/// The PrincipalName that is the whole of `[a, b)`, in `realm`.
pub open spec fn spec_principal_at(s: Seq<u8>, a: int, b: int, realm: Seq<char>) -> Option<
    PrincipalModel,
> {
    match spec_read_tlv(s, a) {
        Some((0x30, pa, pb)) if pb == b => match spec_int_field(s, pa, pb, 0xa0) {
            Some(nt) if spec_fits_i32(nt) => match spec_find(s, pa, pb, 0xa1) {
                Some((la, lb)) => match spec_read_tlv(s, la) {
                    Some((0x30, qa, qb)) if qb == lb => match spec_strings_from(s, qa, qb) {
                        Some(comps) => Some(
                            PrincipalModel { realm, name_type: nt as i32, components: comps },
                        ),
                        None => None,
                    },
                    _ => None,
                },
                None => None,
            },
            _ => None,
        },
        _ => None,
    }
}

fn principal_at(s: &[u8], a: usize, b: usize, realm: String) -> (r: Option<Principal>)
    ensures
        match spec_principal_at(s@, a as int, b as int, realm@) {
            Some(v) => r matches Some(x) && x@ == v,
            None => r is None,
        },
{
    let (t, pa, pb) = match super::ap_req::read_tlv(s, a) {
        Some(x) => x,
        None => return None,
    };
    if t != 0x30 || pb != b {
        return None;
    }
    let nt = match int_field(s, pa, pb, 0xa0) {
        Some(v) => v,
        None => return None,
    };
    if nt < -0x8000_0000 || nt > 0x7fff_ffff {
        return None;
    }
    let (la, lb) = match find(s, pa, pb, 0xa1) {
        Some(x) => x,
        None => return None,
    };
    let (t, qa, qb) = match super::ap_req::read_tlv(s, la) {
        Some(x) => x,
        None => return None,
    };
    if t != 0x30 || qb != lb {
        return None;
    }
    match strings_from(s, qa, qb) {
        Some(comps) => Some(Principal::new(realm, nt as i32, comps)),
        None => None,
    }
}

/// Whether a byte is an ASCII digit.
pub open spec fn spec_is_digit(b: u8) -> bool {
    48 <= b <= 57
}

/// The number written by `n` ASCII digits at `i`.
pub open spec fn spec_decimal_at(s: Seq<u8>, i: int, n: nat) -> nat
    decreases n,
{
    if n == 0 {
        0
    } else {
        spec_decimal_at(s, i, (n - 1) as nat) * 10 + (s[i + n - 1] - 48) as nat
    }
}

/// The GeneralizedTime `YYYYMMDDHHMMSSZ` that is the whole of `[a, b)`,
/// as a UTC time of whole seconds.
pub open spec fn spec_time_at(s: Seq<u8>, a: int, b: int) -> Option<UnixTime> {
    match spec_read_tlv(s, a) {
        Some((0x18, ta, tb)) if tb == b && tb - ta == 15 && (forall|k: int|
            0 <= k < 14 ==> #[trigger] spec_is_digit(s[ta + k])) && s[ta + 14] == 0x5a => match utc_seconds(
            spec_decimal_at(s, ta, 4) as i32,
            spec_decimal_at(s, ta + 4, 2) as u32,
            spec_decimal_at(s, ta + 6, 2) as u32,
            spec_decimal_at(s, ta + 8, 2) as u32,
            spec_decimal_at(s, ta + 10, 2) as u32,
            spec_decimal_at(s, ta + 12, 2) as u32,
        ) {
            Some(sec) => Some(UnixTime { seconds: sec, nanos: 0 }),
            None => None,
        },
        _ => None,
    }
}

fn decimal_at(s: &[u8], i: usize, n: usize) -> (r: u32)
    requires
        n <= 4,
        i + n <= s@.len(),
        forall|k: int| i <= k < i + n ==> #[trigger] spec_is_digit(s@[k]),
    ensures
        r == spec_decimal_at(s@, i as int, n as nat),
        r < 10000,
    decreases n,
{
    if n == 0 {
        0
    } else {
        let prev = decimal_at(s, i, n - 1);
        assert(spec_is_digit(s@[i + n - 1]));
        proof {
            if n - 1 == 3 {
                assert(spec_decimal_at(s@, i as int, 3) < 1000) by {
                    reveal_with_fuel(spec_decimal_at, 4);
                    assert(spec_is_digit(s@[i as int]));
                    assert(spec_is_digit(s@[i + 1]));
                    assert(spec_is_digit(s@[i + 2]));
                }
            }
            decimal_bound(s@, i as int, (n - 1) as nat);
        }
        let len = s.len();
        assert(len == s@.len());
        let idx = i + (n - 1);
        prev * 10 + (s[idx] - 48) as u32
    }
}

proof fn decimal_bound(s: Seq<u8>, i: int, n: nat)
    requires
        n <= 3,
        0 <= i,
        i + n <= s.len(),
        forall|k: int| i <= k < i + n ==> #[trigger] spec_is_digit(s[k]),
    ensures
        spec_decimal_at(s, i, n) < 1000,
        n <= 2 ==> spec_decimal_at(s, i, n) < 100,
        n <= 1 ==> spec_decimal_at(s, i, n) < 10,
    decreases n,
{
    if n > 0 {
        decimal_bound(s, i, (n - 1) as nat);
        assert(spec_is_digit(s[i + n - 1]));
    }
}

fn time_at(s: &[u8], a: usize, b: usize) -> (r: Option<UnixTime>)
    ensures
        r == spec_time_at(s@, a as int, b as int),
{
    let (t, ta, tb) = match super::ap_req::read_tlv(s, a) {
        Some(x) => x,
        None => return None,
    };
    if t != 0x18 || tb != b || tb - ta != 15 {
        return None;
    }
    let mut k: usize = 0;
    while k < 14
        invariant
            k <= 14,
            ta + 15 == tb,
            tb <= s@.len(),
            t == 0x18,
            tb == b,
            spec_read_tlv(s@, a as int) == Some((t, ta as int, tb as int)),
            forall|j: int| 0 <= j < k ==> #[trigger] spec_is_digit(s@[ta + j]),
        decreases 14 - k,
    {
        if s[ta + k] < 48 || s[ta + k] > 57 {
            assert(!spec_is_digit(s@[ta + k as int]));
            return None;
        }
        k = k + 1;
    }
    if s[ta + 14] != 0x5a {
        return None;
    }
    proof {
        assert forall|j: int| ta <= j < ta + 4 implies #[trigger] spec_is_digit(s@[j]) by {
            assert(spec_is_digit(s@[ta + (j - ta)]));
        }
        assert forall|j: int| ta + 4 <= j < ta + 14 implies #[trigger] spec_is_digit(s@[j]) by {
            assert(spec_is_digit(s@[ta + (j - ta)]));
        }
    }
    let y = decimal_at(s, ta, 4);
    let mo = decimal_at(s, ta + 4, 2);
    let d = decimal_at(s, ta + 6, 2);
    let h = decimal_at(s, ta + 8, 2);
    let mi = decimal_at(s, ta + 10, 2);
    let sec = decimal_at(s, ta + 12, 2);
    match crate::asn1::utc_seconds_of(y as i32, mo, d, h, mi, sec) {
        Some(x) => Some(UnixTime { seconds: x, nanos: 0 }),
        None => None,
    }
}

/// The OCTET STRING that is the whole of `[a, b)`.
pub open spec fn spec_octets_at(s: Seq<u8>, a: int, b: int) -> Option<Seq<u8>> {
    match spec_read_tlv(s, a) {
        Some((0x04, oa, ob)) if ob == b => Some(s.subrange(oa, ob)),
        _ => None,
    }
}

pub(crate) fn octets_at(s: &[u8], a: usize, b: usize) -> (r: Option<Vec<u8>>)
    ensures
        match spec_octets_at(s@, a as int, b as int) {
            Some(v) => r matches Some(x) && x@ == v,
            None => r is None,
        },
{
    match super::ap_req::read_tlv(s, a) {
        Some((t, oa, ob)) => if t == 0x04 && ob == b {
            let mut out: Vec<u8> = Vec::new();
            extend_bytes(&mut out, &s[oa..ob]);
            Some(out)
        } else {
            None
        },
        None => None,
    }
}

/// An optional time field: `Some(None)` where it is absent.
pub open spec fn spec_opt_time(s: Seq<u8>, pos: int, end: int, tag: u8) -> Option<Option<UnixTime>> {
    match spec_find(s, pos, end, tag) {
        None => Some(None),
        Some((a, b)) => match spec_time_at(s, a, b) {
            Some(t) => Some(Some(t)),
            None => None,
        },
    }
}

fn opt_time(s: &[u8], pos: usize, end: usize, tag: u8) -> (r: Option<Option<UnixTime>>)
    ensures
        r == spec_opt_time(s@, pos as int, end as int, tag),
{
    match find(s, pos, end, tag) {
        None => Some(None),
        Some((a, b)) => match time_at(s, a, b) {
            Some(t) => Some(Some(t)),
            None => None,
        },
    }
}

/// A required time field.
pub open spec fn spec_req_time(s: Seq<u8>, pos: int, end: int, tag: u8) -> Option<UnixTime> {
    match spec_find(s, pos, end, tag) {
        None => None,
        Some((a, b)) => spec_time_at(s, a, b),
    }
}

fn req_time(s: &[u8], pos: usize, end: usize, tag: u8) -> (r: Option<UnixTime>)
    ensures
        r == spec_req_time(s@, pos as int, end as int, tag),
{
    match find(s, pos, end, tag) {
        None => None,
        Some((a, b)) => time_at(s, a, b),
    }
}

/// The decrypted part of a KDC reply, as plain values.
pub struct EncPartModel {
    pub key: EncryptionKeyModel,
    pub nonce: u32,
    pub key_expiration: Option<UnixTime>,
    pub flags: Seq<u8>,
    pub auth_time: UnixTime,
    pub start_time: Option<UnixTime>,
    pub end_time: UnixTime,
    pub renew_till: Option<UnixTime>,
    pub service: PrincipalModel,
}

/// The EncryptionKey in the field with the given tag.
pub open spec fn spec_key_field(s: Seq<u8>, pos: int, end: int, tag: u8) -> Option<EncryptionKeyModel> {
    match spec_find(s, pos, end, tag) {
        Some((ka, kb)) => match spec_read_tlv(s, ka) {
            Some((0x30, xa, xb)) if xb == kb => match spec_int_field(s, xa, xb, 0xa0) {
                Some(et) if spec_fits_i32(et) => match spec_find(s, xa, xb, 0xa1) {
                    Some((va, vb)) => match spec_octets_at(s, va, vb) {
                        Some(v) => Some(EncryptionKeyModel { etype: et as i32, value: v }),
                        None => None,
                    },
                    None => None,
                },
                _ => None,
            },
            _ => None,
        },
        None => None,
    }
}

fn key_field(s: &[u8], pos: usize, end: usize, tag: u8) -> (r: Option<EncryptionKey>)
    ensures
        match spec_key_field(s@, pos as int, end as int, tag) {
            Some(v) => r matches Some(x) && x@ == v,
            None => r is None,
        },
{
    let (ka, kb) = match find(s, pos, end, tag) {
        Some(x) => x,
        None => return None,
    };
    let (t, xa, xb) = match super::ap_req::read_tlv(s, ka) {
        Some(x) => x,
        None => return None,
    };
    if t != 0x30 || xb != kb {
        return None;
    }
    let et = match int_field(s, xa, xb, 0xa0) {
        Some(v) => v,
        None => return None,
    };
    if et < -0x8000_0000 || et > 0x7fff_ffff {
        return None;
    }
    let (va, vb) = match find(s, xa, xb, 0xa1) {
        Some(x) => x,
        None => return None,
    };
    match octets_at(s, va, vb) {
        Some(v) => Some(EncryptionKey { etype: et as i32, value: v }),
        None => None,
    }
}

/// The flag bytes of the BIT STRING in the field with the given tag.
pub open spec fn spec_flags_field(s: Seq<u8>, pos: int, end: int, tag: u8) -> Option<Seq<u8>> {
    match spec_find(s, pos, end, tag) {
        Some((fa, fb)) => match spec_read_tlv(s, fa) {
            Some((0x03, ba, bb)) if bb == fb && bb > ba => Some(s.subrange(ba + 1, bb)),
            _ => None,
        },
        None => None,
    }
}

fn flags_field(s: &[u8], pos: usize, end: usize, tag: u8) -> (r: Option<Vec<u8>>)
    ensures
        match spec_flags_field(s@, pos as int, end as int, tag) {
            Some(v) => r matches Some(x) && x@ == v,
            None => r is None,
        },
{
    let (fa, fb) = match find(s, pos, end, tag) {
        Some(x) => x,
        None => return None,
    };
    match super::ap_req::read_tlv(s, fa) {
        Some((t, ba, bb)) => if t == 0x03 && bb == fb && bb > ba {
            let mut out: Vec<u8> = Vec::new();
            extend_bytes(&mut out, &s[ba + 1..bb]);
            Some(out)
        } else {
            None
        },
        None => None,
    }
}

/// A Kerberos string in the field with the given tag.
pub open spec fn spec_string_field(s: Seq<u8>, pos: int, end: int, tag: u8) -> Option<Seq<char>> {
    match spec_find(s, pos, end, tag) {
        Some((a, b)) => spec_string_at(s, a, b),
        None => None,
    }
}

fn string_field(s: &[u8], pos: usize, end: usize, tag: u8) -> (r: Option<String>)
    ensures
        match spec_string_field(s@, pos as int, end as int, tag) {
            Some(v) => r matches Some(x) && x@ == v,
            None => r is None,
        },
{
    match find(s, pos, end, tag) {
        Some((a, b)) => string_at(s, a, b),
        None => None,
    }
}

/// A PrincipalName in the field with the given tag, in `realm`.
pub open spec fn spec_principal_field(s: Seq<u8>, pos: int, end: int, tag: u8, realm: Seq<char>) -> Option<
    PrincipalModel,
> {
    match spec_find(s, pos, end, tag) {
        Some((a, b)) => spec_principal_at(s, a, b, realm),
        None => None,
    }
}

fn principal_field(s: &[u8], pos: usize, end: usize, tag: u8, realm: String) -> (r: Option<Principal>)
    ensures
        match spec_principal_field(s@, pos as int, end as int, tag, realm@) {
            Some(v) => r matches Some(x) && x@ == v,
            None => r is None,
        },
{
    match find(s, pos, end, tag) {
        Some((a, b)) => principal_at(s, a, b, realm),
        None => None,
    }
}

/// The body of an EncKDCRepPart: the SEQUENCE inside `[APPLICATION 25]`
/// or `[APPLICATION 26]` that spans all of `s`.
pub open spec fn spec_enc_part_body(s: Seq<u8>) -> Option<(int, int)> {
    match spec_read_tlv(s, 0) {
        Some((t, a, b)) if (t == 0x79 || t == 0x7a) && b == s.len() => match spec_read_tlv(s, a) {
            Some((0x30, sa, sb)) if sb == b => Some((sa, sb)),
            _ => None,
        },
        _ => None,
    }
}

/// An EncKDCRepPart: session key, nonce, key expiration, flags, times,
/// and the service's realm and name.
pub open spec fn spec_enc_part(s: Seq<u8>) -> Option<EncPartModel> {
    match spec_enc_part_body(s) {
        None => None,
        Some((sa, sb)) => match (
            spec_key_field(s, sa, sb, 0xa0),
            spec_int_field(s, sa, sb, 0xa2),
            spec_opt_time(s, sa, sb, 0xa3),
            spec_flags_field(s, sa, sb, 0xa4),
            spec_req_time(s, sa, sb, 0xa5),
            spec_opt_time(s, sa, sb, 0xa6),
            spec_req_time(s, sa, sb, 0xa7),
            spec_opt_time(s, sa, sb, 0xa8),
            spec_string_field(s, sa, sb, 0xa9),
        ) {
            (
                Some(key),
                Some(nonce),
                Some(key_expiration),
                Some(flags),
                Some(auth_time),
                Some(start_time),
                Some(end_time),
                Some(renew_till),
                Some(srealm),
            ) => if 0 <= nonce <= u32::MAX {
                match spec_principal_field(s, sa, sb, 0xaa, srealm) {
                    Some(service) => Some(
                        EncPartModel {
                            key,
                            nonce: nonce as u32,
                            key_expiration,
                            flags,
                            auth_time,
                            start_time,
                            end_time,
                            renew_till,
                            service,
                        },
                    ),
                    None => None,
                }
            } else {
                None
            },
            _ => None,
        },
    }
}

/// The decrypted part of a KDC reply.
pub struct EncPart {
    key: EncryptionKey,
    nonce: u32,
    key_expiration: Option<UnixTime>,
    flags: Vec<u8>,
    auth_time: UnixTime,
    start_time: Option<UnixTime>,
    end_time: UnixTime,
    renew_till: Option<UnixTime>,
    service: Principal,
}

fn enc_part(s: &[u8]) -> (r: Option<EncPart>)
    ensures
        match spec_enc_part(s@) {
            Some(m) => r matches Some(x) && x.key@ == m.key && x.nonce == m.nonce && x.key_expiration
                == m.key_expiration && x.flags@ == m.flags && x.auth_time == m.auth_time
                && x.start_time == m.start_time && x.end_time == m.end_time && x.renew_till
                == m.renew_till && x.service@ == m.service,
            None => r is None,
        },
{
    let (t, a, b) = match super::ap_req::read_tlv(s, 0) {
        Some(x) => x,
        None => return None,
    };
    if !(t == 0x79 || t == 0x7a) || b != s.len() {
        return None;
    }
    let (t, sa, sb) = match super::ap_req::read_tlv(s, a) {
        Some(x) => x,
        None => return None,
    };
    if t != 0x30 || sb != b {
        return None;
    }
    let key = key_field(s, sa, sb, 0xa0);
    let nonce = int_field(s, sa, sb, 0xa2);
    let key_expiration = opt_time(s, sa, sb, 0xa3);
    let flags = flags_field(s, sa, sb, 0xa4);
    let auth_time = req_time(s, sa, sb, 0xa5);
    let start_time = opt_time(s, sa, sb, 0xa6);
    let end_time = req_time(s, sa, sb, 0xa7);
    let renew_till = opt_time(s, sa, sb, 0xa8);
    let srealm = string_field(s, sa, sb, 0xa9);
    match (key, nonce, key_expiration, flags, auth_time, start_time, end_time, renew_till, srealm) {
        (
            Some(key),
            Some(nonce),
            Some(key_expiration),
            Some(flags),
            Some(auth_time),
            Some(start_time),
            Some(end_time),
            Some(renew_till),
            Some(srealm),
        ) => {
            if nonce < 0 || nonce > 0xffff_ffff {
                return None;
            }
            match principal_field(s, sa, sb, 0xaa, srealm) {
                Some(service) => Some(
                    EncPart {
                        key,
                        nonce: nonce as u32,
                        key_expiration,
                        flags,
                        auth_time,
                        start_time,
                        end_time,
                        renew_till,
                        service,
                    },
                ),
                None => None,
            }
        },
        _ => None,
    }
}

/// Key usage of an AS-REP encrypted part.
pub const AS_REP_ENCPART_USAGE: u32 = 3;

/// Key usage of a TGS-REP encrypted part under the TGS session key.
pub const TGS_REP_ENCPART_SESSION_KEY_USAGE: u32 = 8;

/// The readable fields of a KDC reply, as plain values.
pub struct RepModel {
    pub cname: PrincipalModel,
    pub ticket: Seq<u8>,
    pub ticket_service: PrincipalModel,
    pub etype: i32,
    pub cipher: Seq<u8>,
}

/// The body of a message: the SEQUENCE inside the application tag `app`
/// that spans all of `s`.
pub open spec fn spec_message_body(s: Seq<u8>, app: u8) -> Option<(int, int)> {
    match spec_read_tlv(s, 0) {
        Some((t, a, b)) if t == app && b == s.len() => match spec_read_tlv(s, a) {
            Some((0x30, sa, sb)) if sb == b => Some((sa, sb)),
            _ => None,
        },
        _ => None,
    }
}

pub(crate) fn message_body(s: &[u8], app: u8) -> (r: Option<(usize, usize)>)
    ensures
        match spec_message_body(s@, app) {
            Some((a, b)) => r matches Some((x, y)) && x == a && y == b,
            None => r is None,
        },
{
    let (t, a, b) = match super::ap_req::read_tlv(s, 0) {
        Some(x) => x,
        None => return None,
    };
    if t != app || b != s.len() {
        return None;
    }
    match super::ap_req::read_tlv(s, a) {
        Some((t, sa, sb)) => if t == 0x30 && sb == b {
            Some((sa, sb))
        } else {
            None
        },
        None => None,
    }
}

/// The error code of a KRB-ERROR (`[APPLICATION 30]`), or `None` when
/// `s` is not one.
pub open spec fn spec_krb_error_code(s: Seq<u8>) -> Option<i32> {
    match spec_message_body(s, 0x7e) {
        Some((sa, sb)) => match spec_int_field(s, sa, sb, 0xa6) {
            Some(c) if spec_fits_i32(c) => Some(c as i32),
            _ => None,
        },
        None => None,
    }
}

pub(crate) fn krb_error_code(s: &[u8]) -> (r: Option<i32>)
    ensures
        r == spec_krb_error_code(s@),
{
    let (sa, sb) = match message_body(s, 0x7e) {
        Some(x) => x,
        None => return None,
    };
    match int_field(s, sa, sb, 0xa6) {
        Some(c) => if c >= -0x8000_0000 && c <= 0x7fff_ffff {
            Some(c as i32)
        } else {
            None
        },
        None => None,
    }
}

/// The service a ticket is for: its realm and service name.
pub open spec fn spec_ticket_service(s: Seq<u8>, ta: int, tb: int) -> Option<PrincipalModel> {
    match spec_read_tlv(s, ta) {
        Some((0x61, xa, xb)) if xb == tb => match spec_read_tlv(s, xa) {
            Some((0x30, ya, yb)) if yb == xb => match spec_string_field(s, ya, yb, 0xa1) {
                Some(realm) => spec_principal_field(s, ya, yb, 0xa2, realm),
                None => None,
            },
            _ => None,
        },
        _ => None,
    }
}

fn ticket_service(s: &[u8], ta: usize, tb: usize) -> (r: Option<Principal>)
    ensures
        match spec_ticket_service(s@, ta as int, tb as int) {
            Some(v) => r matches Some(x) && x@ == v,
            None => r is None,
        },
{
    let (t, xa, xb) = match super::ap_req::read_tlv(s, ta) {
        Some(x) => x,
        None => return None,
    };
    if t != 0x61 || xb != tb {
        return None;
    }
    let (t, ya, yb) = match super::ap_req::read_tlv(s, xa) {
        Some(x) => x,
        None => return None,
    };
    if t != 0x30 || yb != xb {
        return None;
    }
    match string_field(s, ya, yb, 0xa1) {
        Some(realm) => principal_field(s, ya, yb, 0xa2, realm),
        None => None,
    }
}

/// A KDC-REP under the application tag `app` with message type
/// `msg_type`: version 5, its client realm and name, its ticket (kept as
/// DER) and its encrypted part's type and cipher.
pub open spec fn spec_kdc_rep(s: Seq<u8>, app: u8, msg_type: int) -> Option<RepModel> {
    match spec_message_body(s, app) {
        None => None,
        Some((sa, sb)) => if spec_int_field(s, sa, sb, 0xa0) != Some(5int) || spec_int_field(
            s,
            sa,
            sb,
            0xa1,
        ) != Some(msg_type) {
            None
        } else {
            match spec_string_field(s, sa, sb, 0xa3) {
                None => None,
                Some(crealm) => match (
                    spec_principal_field(s, sa, sb, 0xa4, crealm),
                    spec_find(s, sa, sb, 0xa5),
                    spec_find(s, sa, sb, 0xa6),
                ) {
                    (Some(cname), Some((ta, tb)), Some((ea, eb))) => match (
                        spec_ticket_service(s, ta, tb),
                        spec_read_tlv(s, ea),
                    ) {
                        (Some(tsvc), Some((0x30, da, db))) if db == eb => match (
                            spec_int_field(s, da, db, 0xa0),
                            spec_find(s, da, db, 0xa2),
                        ) {
                            (Some(et), Some((ca, cb))) if spec_fits_i32(et) => match spec_octets_at(
                                s,
                                ca,
                                cb,
                            ) {
                                Some(cipher) => Some(
                                    RepModel {
                                        cname,
                                        ticket: s.subrange(ta, tb),
                                        ticket_service: tsvc,
                                        etype: et as i32,
                                        cipher,
                                    },
                                ),
                                None => None,
                            },
                            _ => None,
                        },
                        _ => None,
                    },
                    _ => None,
                },
            }
        },
    }
}

/// A KDC reply as read.
pub struct Rep {
    cname: Principal,
    ticket: Vec<u8>,
    ticket_service: Principal,
    etype: i32,
    cipher: Vec<u8>,
}

fn kdc_rep(s: &[u8], app: u8, msg_type: i64) -> (r: Option<Rep>)
    ensures
        match spec_kdc_rep(s@, app, msg_type as int) {
            Some(m) => r matches Some(x) && x.cname@ == m.cname && x.ticket@ == m.ticket
                && x.ticket_service@ == m.ticket_service && x.etype == m.etype && x.cipher@
                == m.cipher,
            None => r is None,
        },
{
    let (sa, sb) = match message_body(s, app) {
        Some(x) => x,
        None => return None,
    };
    match int_field(s, sa, sb, 0xa0) {
        Some(v) => if v != 5 {
            return None;
        },
        None => return None,
    }
    match int_field(s, sa, sb, 0xa1) {
        Some(v) => if v != msg_type {
            return None;
        },
        None => return None,
    }
    let crealm = match string_field(s, sa, sb, 0xa3) {
        Some(r) => r,
        None => return None,
    };
    let cname = principal_field(s, sa, sb, 0xa4, crealm);
    let tk = find(s, sa, sb, 0xa5);
    let ep = find(s, sa, sb, 0xa6);
    let (cname, ta, tb, ea, eb) = match (cname, tk, ep) {
        (Some(c), Some((ta, tb)), Some((ea, eb))) => (c, ta, tb, ea, eb),
        _ => return None,
    };
    let tsvc = ticket_service(s, ta, tb);
    let ed = super::ap_req::read_tlv(s, ea);
    let (tsvc, da, db) = match (tsvc, ed) {
        (Some(t), Some((tag, da, db))) => if tag == 0x30 && db == eb {
            (t, da, db)
        } else {
            return None;
        },
        _ => return None,
    };
    let et = int_field(s, da, db, 0xa0);
    let cf = find(s, da, db, 0xa2);
    let (et, ca, cb) = match (et, cf) {
        (Some(et), Some((ca, cb))) => if et >= -0x8000_0000 && et <= 0x7fff_ffff {
            (et, ca, cb)
        } else {
            return None;
        },
        _ => return None,
    };
    let cipher = match octets_at(s, ca, cb) {
        Some(c) => c,
        None => return None,
    };
    let mut ticket: Vec<u8> = Vec::new();
    extend_bytes(&mut ticket, &s[ta..tb]);
    Some(Rep { cname, ticket, ticket_service: tsvc, etype: et as i32, cipher })
}

/// Whether `r` is what processing the reply `s` to a request for
/// `client`, `service` and `nonce` gives, under the reply key `key`:
/// a KRB-ERROR gives its code; a reply that cannot be read gives
/// `InvalidReply`; a reply for another client gives
/// `ClientPrincipalMismatch` before anything is decrypted; then the key's
/// type must be that of the encrypted part, known, and decrypt it, and
/// the decrypted part (zero padding after its DER trimmed) must be
/// readable; then the checks of `spec_reply_result` decide.
pub open spec fn spec_process_reply(
    client: PrincipalModel,
    service: PrincipalModel,
    nonce: u32,
    key: EncryptionKeyModel,
    s: Seq<u8>,
    app: u8,
    msg_type: int,
    usage: u32,
    allow_referral: bool,
    r: Result<AsRepSession, Error>,
) -> bool {
    match spec_krb_error_code(s) {
        Some(code) => r == Err::<AsRepSession, Error>(Error::Kdc { error_code: code }),
        None => match spec_kdc_rep(s, app, msg_type) {
            None => r == Err::<AsRepSession, Error>(Error::InvalidReply),
            Some(rep) => if !spec_principal_matches(rep.cname, client) {
                r matches Err(Error::ClientPrincipalMismatch { expected, actual }) && expected@
                    == spec_principal_name(client) && actual@ == spec_principal_name(rep.cname)
            } else if key.etype != rep.etype {
                r == Err::<AsRepSession, Error>(
                    Error::KeyEtypeMismatch { key_etype: key.etype, encrypted_data_etype: rep.etype },
                )
            } else {
                match spec_etype_from_id(key.etype) {
                    None => r == Err::<AsRepSession, Error>(Error::UnsupportedEtype(key.etype)),
                    Some(e) => if !spec_len_fits(rep.cipher.len() + 16) {
                        r == Err::<AsRepSession, Error>(Error::MessageTooLarge)
                    } else {
                        match e.spec_decrypt_message(key.value, rep.cipher, usage) {
                            Err(ce) => r == Err::<AsRepSession, Error>(Error::Crypto(ce)),
                            Ok(plain) => match spec_enc_part(spec_trim_zero_padded_der(plain)) {
                                None => r == Err::<AsRepSession, Error>(Error::InvalidReply),
                                Some(ep) => spec_reply_result(
                                    client,
                                    service,
                                    nonce,
                                    KdcReplyModel {
                                        client: rep.cname,
                                        ticket_service: rep.ticket_service,
                                        ticket: rep.ticket,
                                        nonce: ep.nonce,
                                        service: ep.service,
                                        session_key: ep.key,
                                        flags: ep.flags,
                                        auth_time: ep.auth_time,
                                        start_time: ep.start_time,
                                        end_time: ep.end_time,
                                        renew_till: ep.renew_till,
                                        key_expiration: ep.key_expiration,
                                    },
                                    allow_referral,
                                    r,
                                ),
                            },
                        }
                    },
                }
            },
        },
    }
}

fn process_reply(
    client: &Principal,
    service: &Principal,
    nonce: u32,
    key: &EncryptionKey,
    s: &[u8],
    app: u8,
    msg_type: i64,
    usage: u32,
    allow_referral: bool,
) -> (r: Result<AsRepSession, Error>)
    ensures
        spec_process_reply(
            client@,
            service@,
            nonce,
            key@,
            s@,
            app,
            msg_type as int,
            usage,
            allow_referral,
            r,
        ),
{
    if let Some(code) = krb_error_code(s) {
        return Err(Error::Kdc { error_code: code });
    }
    let rep = match kdc_rep(s, app, msg_type) {
        Some(r) => r,
        None => return Err(Error::InvalidReply),
    };
    if !principal_matches(&rep.cname, client) {
        return Err(Error::ClientPrincipalMismatch { expected: client.name(), actual: rep.cname.name() });
    }
    if key.etype != rep.etype {
        return Err(Error::KeyEtypeMismatch { key_etype: key.etype, encrypted_data_etype: rep.etype });
    }
    let etype = match KerberosEtype::from_etype_id(key.etype) {
        Some(e) => e,
        None => return Err(Error::UnsupportedEtype(key.etype)),
    };
    if rep.cipher.len() > (isize::MAX as usize) - 16 {
        return Err(Error::MessageTooLarge);
    }
    let plain = match etype.decrypt_message(key.value.as_slice(), rep.cipher.as_slice(), usage) {
        Ok(p) => p,
        Err(e) => return Err(Error::Crypto(e)),
    };
    let trimmed = crate::der::trim_zero_padded_der(plain.as_slice());
    let ep = match enc_part(trimmed) {
        Some(e) => e,
        None => return Err(Error::InvalidReply),
    };
    let Rep { cname, ticket, ticket_service, etype: _, cipher: _ } = rep;
    let EncPart {
        key: session_key,
        nonce: reply_nonce,
        key_expiration,
        flags,
        auth_time,
        start_time,
        end_time,
        renew_till,
        service: reply_service,
    } = ep;
    let parts = KdcReplyParts {
        client: cname,
        ticket_service,
        ticket,
        nonce: reply_nonce,
        service: reply_service,
        session_key,
        flags,
        auth_time,
        start_time,
        end_time,
        renew_till,
        key_expiration,
    };
    reply_session(client, service, nonce, parts, allow_referral)
}

/// Decrypt and check an AS-REP with the reply key.
pub fn process_as_rep(request: &BuiltAsReq, bytes: &[u8], reply_key: &EncryptionKey) -> (r: Result<
    AsRepSession,
    Error,
>)
    ensures
        spec_process_reply(
            request.client@,
            request.service@,
            request.nonce,
            reply_key@,
            bytes@,
            0x6b,
            11,
            AS_REP_ENCPART_USAGE,
            false,
            r,
        ),
{
    process_reply(
        &request.client,
        &request.service,
        request.nonce,
        reply_key,
        bytes,
        0x6b,
        11,
        AS_REP_ENCPART_USAGE,
        false,
    )
}

/// Decrypt and check a TGS-REP with the TGS session key.
pub fn process_tgs_rep(request: &BuiltTgsReq, bytes: &[u8], tgs_session_key: &EncryptionKey) -> (r:
    Result<AsRepSession, Error>)
    ensures
        spec_process_reply(
            request.client@,
            request.service@,
            request.nonce,
            tgs_session_key@,
            bytes@,
            0x6d,
            13,
            TGS_REP_ENCPART_SESSION_KEY_USAGE,
            false,
            r,
        ),
{
    process_reply(
        &request.client,
        &request.service,
        request.nonce,
        tgs_session_key,
        bytes,
        0x6d,
        13,
        TGS_REP_ENCPART_SESSION_KEY_USAGE,
        false,
    )
}

/// Decrypt and check a TGS-REP, accepting a referral TGT in place of the
/// service asked for.
pub fn process_tgs_rep_with_referral(
    request: &BuiltTgsReq,
    bytes: &[u8],
    tgs_session_key: &EncryptionKey,
) -> (r: Result<AsRepSession, Error>)
    ensures
        spec_process_reply(
            request.client@,
            request.service@,
            request.nonce,
            tgs_session_key@,
            bytes@,
            0x6d,
            13,
            TGS_REP_ENCPART_SESSION_KEY_USAGE,
            true,
            r,
        ),
{
    process_reply(
        &request.client,
        &request.service,
        request.nonce,
        tgs_session_key,
        bytes,
        0x6d,
        13,
        TGS_REP_ENCPART_SESSION_KEY_USAGE,
        true,
    )
}

} // verus!
