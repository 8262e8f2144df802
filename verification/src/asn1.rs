//! The DER encodings Kerberos messages are built from: tag, length and
//! content, integers in minimal two's complement, strings, bit strings,
//! and times as `YYYYMMDDHHMMSSZ` in UTC.

use vstd::prelude::*;

use chrono::{Datelike, Timelike};

use crate::wire::extend_bytes;

verus! {

/// DER tag of INTEGER.
pub const TAG_INTEGER: u8 = 0x02;

/// DER tag of BIT STRING.
pub const TAG_BIT_STRING: u8 = 0x03;

/// DER tag of OCTET STRING.
pub const TAG_OCTET_STRING: u8 = 0x04;

/// DER tag of GeneralizedTime.
pub const TAG_GENERALIZED_TIME: u8 = 0x18;

/// DER tag of GeneralString, which carries Kerberos strings.
pub const TAG_GENERAL_STRING: u8 = 0x1b;

/// DER tag of SEQUENCE and SEQUENCE OF.
pub const TAG_SEQUENCE: u8 = 0x30;

/// The tag of an explicit context-specific field `[n]`.
pub open spec fn spec_context_tag(n: u8) -> u8 {
    (0xa0 + n) as u8
}

/// The tag of an application-class message `[APPLICATION n]`.
pub open spec fn spec_application_tag(n: u8) -> u8 {
    (0x60 + n) as u8
}

/// Minimal big-endian bytes of a positive number.
pub open spec fn spec_be_min(n: nat) -> Seq<u8>
    decreases n,
{
    if n < 256 {
        seq![n as u8]
    } else {
        spec_be_min(n / 256).push((n % 256) as u8)
    }
}

/// A DER length: one byte below 128, else `0x80` plus the count of the
/// minimal big-endian bytes that follow.
pub open spec fn spec_der_len(n: nat) -> Seq<u8> {
    if n < 128 {
        seq![n as u8]
    } else {
        seq![(0x80 + spec_be_min(n).len()) as u8] + spec_be_min(n)
    }
}

/// A DER element: tag, length, content.
pub open spec fn spec_tlv(tag: u8, content: Seq<u8>) -> Seq<u8> {
    seq![tag] + spec_der_len(content.len()) + content
}

/// The content of a DER INTEGER: minimal two's complement, big-endian.
pub open spec fn spec_int_content(v: int) -> Seq<u8>
    decreases (if v < 0 {
        -v
    } else {
        v
    }),
{
    if -128 <= v < 128 {
        seq![(if v < 0 {
            v + 256
        } else {
            v
        }) as u8]
    } else {
        spec_int_content(v / 256).push((v % 256) as u8)
    }
}

/// A DER INTEGER.
pub open spec fn spec_der_int(v: int) -> Seq<u8> {
    spec_tlv(TAG_INTEGER, spec_int_content(v))
}

/// The concatenation of a sequence of encodings.
pub open spec fn spec_flatten(parts: Seq<Seq<u8>>) -> Seq<u8>
    decreases parts.len(),
{
    if parts.len() == 0 {
        Seq::empty()
    } else {
        spec_flatten(parts.drop_last()) + parts.last()
    }
}

fn be_min(n: usize) -> (r: Vec<u8>)
    ensures
        r@ == spec_be_min(n as nat),
        r@.len() <= 8,
    decreases n,
{
    if n < 256 {
        let mut v: Vec<u8> = Vec::new();
        v.push(n as u8);
        v
    } else {
        let mut v = be_min(n / 256);
        proof {
            lemma_be_min_len(n as nat);
        }
        v.push((n % 256) as u8);
        v
    }
}

/// `256` to the power `k`.
pub open spec fn spec_pow256(k: nat) -> nat
    decreases k,
{
    if k == 0 {
        1
    } else {
        256 * spec_pow256((k - 1) as nat)
    }
}

proof fn lemma_be_min_bound(n: nat, k: nat)
    requires
        k >= 1,
        n < spec_pow256(k),
    ensures
        1 <= spec_be_min(n).len() <= k,
    decreases k,
{
    if n >= 256 {
        let p = spec_pow256((k - 1) as nat);
        assert(k >= 2) by {
            if k == 1 {
                assert(spec_pow256(0) == 1);
            }
        }
        assert(n / 256 < p) by (nonlinear_arith)
            requires
                n < 256 * p,
        {
        }
        lemma_be_min_bound(n / 256, (k - 1) as nat);
    }
}

proof fn lemma_be_min_len(n: nat)
    ensures
        spec_be_min(n).len() >= 1,
        n < 0x1_0000_0000_0000_0000 ==> spec_be_min(n).len() <= 8,
        n >= 256 ==> spec_be_min(n / 256).len() + 1 == spec_be_min(n).len(),
{
    reveal_with_fuel(spec_pow256, 9);
    assert(spec_pow256(8) == 0x1_0000_0000_0000_0000);
    if n < 0x1_0000_0000_0000_0000 {
        lemma_be_min_bound(n, 8);
    } else {
        lemma_pow256_grows(n);
        lemma_be_min_bound(n, (n + 1) as nat);
    }
}

proof fn lemma_pow256_grows(n: nat)
    ensures
        n < spec_pow256((n + 1) as nat),
    decreases n,
{
    if n > 0 {
        lemma_pow256_grows((n - 1) as nat);
        assert(spec_pow256((n + 1) as nat) == 256 * spec_pow256(n));
    } else {
        assert(spec_pow256(1) == 256 * spec_pow256(0));
    }
}

/// Append a DER element with the given tag and content.
pub fn push_tlv(out: &mut Vec<u8>, tag: u8, content: &[u8])
    ensures
        final(out)@ == old(out)@ + spec_tlv(tag, content@),
{
    out.push(tag);
    let n = content.len();
    if n < 128 {
        out.push(n as u8);
    } else {
        let b = be_min(n);
        out.push((0x80 + b.len()) as u8);
        extend_bytes(out, b.as_slice());
    }
    extend_bytes(out, content);
    proof {
        assert(out@ =~= old(out)@ + spec_tlv(tag, content@));
    }
}

/// A DER element with the given tag and content.
pub fn tlv(tag: u8, content: &[u8]) -> (r: Vec<u8>)
    ensures
        r@ == spec_tlv(tag, content@),
{
    let mut out: Vec<u8> = Vec::new();
    push_tlv(&mut out, tag, content);
    assert(out@ =~= spec_tlv(tag, content@));
    out
}

fn floor_div_256(v: i64) -> (r: (i64, u8))
    ensures
        r.0 == v / 256,
        r.1 == v % 256,
{
    if v >= 0 {
        (v / 256, (v % 256) as u8)
    } else {
        let q: i64 = -((-(v + 1)) / 256) - 1;
        let rem: i64 = v - q * 256;
        assert(q == v / 256 && rem == v % 256) by (nonlinear_arith)
            requires
                v < 0,
                q == -((-(v + 1)) / 256) - 1,
                rem == v - q * 256,
        {
            let a = -(v + 1);
            assert(0 <= a % 256 < 256);
            assert(a == 256 * (a / 256) + a % 256);
            assert(rem == 255 - a % 256);
            vstd::arithmetic::div_mod::lemma_fundamental_div_mod_converse(v as int, 256, q as int, rem as int);
        }
        (q, rem as u8)
    }
}

/// The content of a DER INTEGER.
pub fn int_content(v: i64) -> (r: Vec<u8>)
    ensures
        r@ == spec_int_content(v as int),
    decreases (if v < 0 {
        -(v as int)
    } else {
        v as int
    }),
{
    if -128 <= v && v < 128 {
        let b: u8 = if v < 0 {
            (v + 256) as u8
        } else {
            v as u8
        };
        let mut r: Vec<u8> = Vec::new();
        r.push(b);
        r
    } else {
        let (q, rem) = floor_div_256(v);
        assert(if q < 0 { -(q as int) } else { q as int } < if v < 0 { -(v as int) } else { v as int }) by (nonlinear_arith)
            requires
                q == v / 256,
                !(-128 <= v < 128),
        {
        }
        let mut r = int_content(q);
        r.push(rem);
        r
    }
}

/// Append a DER INTEGER.
pub fn push_der_int(out: &mut Vec<u8>, v: i64)
    ensures
        final(out)@ == old(out)@ + spec_der_int(v as int),
{
    let c = int_content(v);
    push_tlv(out, TAG_INTEGER, c.as_slice());
}

/// A DER INTEGER.
pub fn der_int(v: i64) -> (r: Vec<u8>)
    ensures
        r@ == spec_der_int(v as int),
{
    let c = int_content(v);
    tlv(TAG_INTEGER, c.as_slice())
}

/// The calendar fields (year, month, day, hour, minute, second) that
/// chrono gives a UTC time of whole seconds since the epoch, or `None`
/// where chrono has no such date.
pub uninterp spec fn utc_fields(seconds: i64) -> Option<(i32, u32, u32, u32, u32, u32)>;

/// `chrono::DateTime::<Utc>::from_timestamp(seconds, 0)` and its calendar
/// fields: `None` exactly where chrono has no date; months count from 1,
/// days from 1 to 31, and a time of whole seconds is never a leap second.
#[verifier::external_body]
fn utc_fields_of(seconds: i64) -> (r: Option<(i32, u32, u32, u32, u32, u32)>)
    ensures
        r == utc_fields(seconds),
        r matches Some(f) ==> 1 <= f.1 <= 12 && 1 <= f.2 <= 31 && f.3 < 24 && f.4 < 60 && f.5 < 60,
{
    match chrono::DateTime::from_timestamp(seconds, 0) {
        Some(t) => Some((t.year(), t.month(), t.day(), t.hour(), t.minute(), t.second())),
        None => None,
    }
}

/// The seconds since the epoch that chrono gives a UTC calendar time, or
/// `None` where chrono has no such date or time.
pub uninterp spec fn utc_seconds(
    year: i32,
    month: u32,
    day: u32,
    hour: u32,
    minute: u32,
    second: u32,
) -> Option<i64>;

/// `chrono::NaiveDate::from_ymd_opt`, `and_hms_opt`, then the UTC
/// timestamp: `None` where the date or time does not exist.
#[verifier::external_body]
pub(crate) fn utc_seconds_of(year: i32, month: u32, day: u32, hour: u32, minute: u32, second: u32) -> (r:
    Option<i64>)
    ensures
        r == utc_seconds(year, month, day, hour, minute, second),
{
    match chrono::NaiveDate::from_ymd_opt(year, month, day) {
        Some(d) => match d.and_hms_opt(hour, minute, second) {
            Some(t) => Some(t.and_utc().timestamp()),
            None => None,
        },
        None => None,
    }
}

/// ASCII digits of `v` in `width` places, most significant first.
pub open spec fn spec_digits(v: nat, width: nat) -> Seq<u8>
    decreases width,
{
    if width == 0 {
        Seq::empty()
    } else {
        spec_digits(v / 10, (width - 1) as nat).push((48 + v % 10) as u8)
    }
}

/// The content of a GeneralizedTime for whole seconds since the epoch:
/// `YYYYMMDDHHMMSSZ` in UTC; `None` where chrono has no date or the year
/// is not within `0..=9999`.
pub open spec fn spec_time_content(seconds: i64) -> Option<Seq<u8>> {
    match utc_fields(seconds) {
        None => None,
        Some(f) => if f.0 < 0 || f.0 > 9999 {
            None
        } else {
            Some(
                spec_digits(f.0 as nat, 4) + spec_digits(f.1 as nat, 2) + spec_digits(f.2 as nat, 2)
                    + spec_digits(f.3 as nat, 2) + spec_digits(f.4 as nat, 2) + spec_digits(
                    f.5 as nat,
                    2,
                ) + seq![0x5au8],
            )
        },
    }
}

fn push_digits(out: &mut Vec<u8>, v: u32, width: usize)
    requires
        width <= 4,
    ensures
        final(out)@ == old(out)@ + spec_digits(v as nat, width as nat),
    decreases width,
{
    if width > 0 {
        push_digits(out, v / 10, width - 1);
        out.push((48 + v % 10) as u8);
    }
}

/// The content of a GeneralizedTime for whole seconds since the epoch.
pub fn time_content(seconds: i64) -> (r: Option<Vec<u8>>)
    ensures
        match spec_time_content(seconds) {
            Some(c) => r matches Some(v) && v@ == c,
            None => r is None,
        },
{
    match utc_fields_of(seconds) {
        None => None,
        Some((y, mo, d, h, mi, s)) => {
            if y < 0 || y > 9999 {
                return None;
            }
            let mut out: Vec<u8> = Vec::new();
            push_digits(&mut out, y as u32, 4);
            push_digits(&mut out, mo, 2);
            push_digits(&mut out, d, 2);
            push_digits(&mut out, h, 2);
            push_digits(&mut out, mi, 2);
            push_digits(&mut out, s, 2);
            out.push(0x5a);
            proof {
                assert(out@ =~= spec_time_content(seconds)->Some_0);
            }
            Some(out)
        },
    }
}

} // verus!
