//! Kerberos `krb5.conf` values: booleans, durations and encryption type
//! names, as `krb5.conf` writes them.

use vstd::prelude::*;

pub mod krb5_conf;
pub mod sections;

pub use self::krb5_conf::{LibDefaults, LibDefaultsModel, Realm, RealmModel};
pub use self::sections::{Config, ConfigModel};



use crate::text::{
    count_char, find_char, spec_count, spec_find,
    ascii_lowercase, parse_u64, spec_ascii_lowercase, spec_is_whitespace, spec_parse_unsigned,
    spec_trim, str_chars, str_eq, trim_chars,
};

verus! {

/// Configuration parsing error.
#[derive(Clone, Debug, Eq, PartialEq)]
pub enum Error {
    /// A section line was syntactically invalid.
    InvalidLine {
        /// Section name.
        section: &'static str,
        /// One-based line number.
        line: usize,
        /// Line text after comment stripping.
        text: String,
    },
    /// A directive is explicitly unsupported.
    UnsupportedDirective(String),
    /// A boolean value was invalid.
    InvalidBoolean(String),
    /// A duration value was invalid.
    InvalidDuration(String),
    /// A duration value overflowed.
    DurationOverflow(String),
    /// An integer value was invalid.
    InvalidInteger {
        /// Line number.
        line: usize,
        /// Config key.
        key: String,
        /// Config value.
        value: String,
    },
    /// An IP address was invalid.
    InvalidIpAddress {
        /// Line number.
        line: usize,
        /// Config key.
        key: String,
        /// Config value.
        value: String,
    },
    /// The realms section has invalid brace structure.
    InvalidRealmsSection(String),
    /// The requested realm is absent.
    NoRealm(String),
    /// The requested realm has no configured KDCs.
    NoKdc(String),
    /// The requested realm has no configured password-change servers.
    NoKpasswdServer(String),
}

/// A configuration error as plain values.
pub enum ConfigFault {
    InvalidLine { section: Seq<char>, line: nat, text: Seq<char> },
    UnsupportedDirective(Seq<char>),
    InvalidBoolean(Seq<char>),
    InvalidDuration(Seq<char>),
    DurationOverflow(Seq<char>),
    InvalidInteger { line: nat, key: Seq<char>, value: Seq<char> },
    InvalidIpAddress { line: nat, key: Seq<char>, value: Seq<char> },
    InvalidRealmsSection(Seq<char>),
    NoRealm(Seq<char>),
    NoKdc(Seq<char>),
    NoKpasswdServer(Seq<char>),
}

impl View for Error {
    type V = ConfigFault;

    open spec fn view(&self) -> ConfigFault {
        match self {
            Error::InvalidLine { section, line, text } => ConfigFault::InvalidLine {
                section: section@,
                line: *line as nat,
                text: text@,
            },
            Error::UnsupportedDirective(s) => ConfigFault::UnsupportedDirective(s@),
            Error::InvalidBoolean(s) => ConfigFault::InvalidBoolean(s@),
            Error::InvalidDuration(s) => ConfigFault::InvalidDuration(s@),
            Error::DurationOverflow(s) => ConfigFault::DurationOverflow(s@),
            Error::InvalidInteger { line, key, value } => ConfigFault::InvalidInteger {
                line: *line as nat,
                key: key@,
                value: value@,
            },
            Error::InvalidIpAddress { line, key, value } => ConfigFault::InvalidIpAddress {
                line: *line as nat,
                key: key@,
                value: value@,
            },
            Error::InvalidRealmsSection(s) => ConfigFault::InvalidRealmsSection(s@),
            Error::NoRealm(s) => ConfigFault::NoRealm(s@),
            Error::NoKdc(s) => ConfigFault::NoKdc(s@),
            Error::NoKpasswdServer(s) => ConfigFault::NoKpasswdServer(s@),
        }
    }
}

// ---------------------------------------------------------------------------
// Booleans

/// A krb5 boolean: `1 t true y yes` and `0 f false n no`, in any ASCII
/// case, around whitespace.
pub open spec fn spec_parse_boolean(value: Seq<char>) -> Option<bool> {
    let v = spec_ascii_lowercase(spec_trim(value));
    if v == "1"@ || v == "t"@ || v == "true"@ || v == "y"@ || v == "yes"@ {
        Some(true)
    } else if v == "0"@ || v == "f"@ || v == "false"@ || v == "n"@ || v == "no"@ {
        Some(false)
    } else {
        None
    }
}

/// The words of a krb5 boolean: `1`, `t`, `true`, `y` and `yes` are true,
/// `0`, `f`, `false`, `n` and `no` false, in any letter case and with any
/// surrounding whitespace; nothing else is a boolean.
pub proof fn lemma_boolean_words(value: Seq<char>)
    ensures
        spec_parse_boolean(value) == Some(true) <==> ({
            let v = spec_ascii_lowercase(spec_trim(value));
            v == "1"@ || v == "t"@ || v == "true"@ || v == "y"@ || v == "yes"@
        }),
        spec_parse_boolean(value) == Some(false) <==> ({
            let v = spec_ascii_lowercase(spec_trim(value));
            v == "0"@ || v == "f"@ || v == "false"@ || v == "n"@ || v == "no"@
        }),
{
    reveal_strlit("1");
    assert("1"@.len() == 1 && "1"@[0] == '1');
    reveal_strlit("t");
    assert("t"@.len() == 1 && "t"@[0] == 't');
    reveal_strlit("true");
    assert("true"@.len() == 4 && "true"@[0] == 't');
    reveal_strlit("y");
    assert("y"@.len() == 1 && "y"@[0] == 'y');
    reveal_strlit("yes");
    assert("yes"@.len() == 3 && "yes"@[0] == 'y');
    reveal_strlit("0");
    assert("0"@.len() == 1 && "0"@[0] == '0');
    reveal_strlit("f");
    assert("f"@.len() == 1 && "f"@[0] == 'f');
    reveal_strlit("false");
    assert("false"@.len() == 5 && "false"@[0] == 'f');
    reveal_strlit("n");
    assert("n"@.len() == 1 && "n"@[0] == 'n');
    reveal_strlit("no");
    assert("no"@.len() == 2 && "no"@[0] == 'n');
}

/// Parse a krb5 boolean value.
pub fn parse_boolean(value: &str) -> (r: Result<bool, Error>)
    ensures
        match spec_parse_boolean(value@) {
            Some(b) => r == Ok::<bool, Error>(b),
            None => r matches Err(Error::InvalidBoolean(v)) && v@ == value@,
        },
{
    let chars = str_chars(value);
    let trimmed = trim_chars(chars.as_slice());
    let lower = ascii_lowercase(trimmed.as_slice());
    let v = lower.as_str();
    if str_eq(v, "1") || str_eq(v, "t") || str_eq(v, "true") || str_eq(v, "y") || str_eq(v, "yes") {
        Ok(true)
    } else if str_eq(v, "0") || str_eq(v, "f") || str_eq(v, "false") || str_eq(v, "n") || str_eq(
        v,
        "no",
    ) {
        Ok(false)
    } else {
        Err(Error::InvalidBoolean(value.to_owned()))
    }
}

// ---------------------------------------------------------------------------
// Encryption type names

/// The supported encryption type id an (already lower-cased) name stands
/// for.
pub open spec fn spec_enctype_id(name: Seq<char>) -> Option<i32> {
    if name == "aes128-cts-hmac-sha1-96"@ || name == "aes128-cts"@ || name == "aes128-sha1"@ {
        Some(17)
    } else if name == "aes256-cts-hmac-sha1-96"@ || name == "aes256-cts"@ || name
        == "aes256-sha1"@ {
        Some(18)
    } else if name == "aes128-cts-hmac-sha256-128"@ || name == "aes128-sha2"@ {
        Some(19)
    } else if name == "aes256-cts-hmac-sha384-192"@ || name == "aes256-sha2"@ {
        Some(20)
    } else if name == "des3-cbc-sha1-kd"@ {
        Some(16)
    } else if name == "arcfour-hmac"@ || name == "rc4-hmac"@ || name == "arcfour-hmac-md5"@ {
        Some(23)
    } else {
        None
    }
}

/// The names of the supported encryption types: each stands for the
/// registered id of the type it names, and no other name stands for one.
/// AES-SHA1 (RFC 3962) is 17 and 18, AES-SHA2 (RFC 8009) 19 and 20,
/// DES3-CBC-SHA1-KD (RFC 3961) 16, RC4-HMAC (RFC 4757) 23.
pub proof fn lemma_enctype_names(name: Seq<char>)
    ensures
        spec_enctype_id(name) == Some(17i32) <==> (name == "aes128-cts-hmac-sha1-96"@ || name
            == "aes128-cts"@ || name == "aes128-sha1"@),
        spec_enctype_id(name) == Some(18i32) <==> (name == "aes256-cts-hmac-sha1-96"@ || name
            == "aes256-cts"@ || name == "aes256-sha1"@),
        spec_enctype_id(name) == Some(19i32) <==> (name == "aes128-cts-hmac-sha256-128"@ || name
            == "aes128-sha2"@),
        spec_enctype_id(name) == Some(20i32) <==> (name == "aes256-cts-hmac-sha384-192"@ || name
            == "aes256-sha2"@),
        spec_enctype_id(name) == Some(16i32) <==> name == "des3-cbc-sha1-kd"@,
        spec_enctype_id(name) == Some(23i32) <==> (name == "arcfour-hmac"@ || name == "rc4-hmac"@
            || name == "arcfour-hmac-md5"@),
        spec_enctype_id(name) matches Some(id) ==> (id == 16 || 17 <= id <= 20 || id == 23),
{
    reveal_strlit("aes128-cts-hmac-sha1-96");
    assert("aes128-cts-hmac-sha1-96"@.len() == 23);
    reveal_strlit("aes128-cts");
    assert("aes128-cts"@.len() == 10);
    reveal_strlit("aes128-sha1");
    assert("aes128-sha1"@.len() == 11);
    reveal_strlit("aes256-cts-hmac-sha1-96");
    assert("aes256-cts-hmac-sha1-96"@.len() == 23);
    reveal_strlit("aes256-cts");
    assert("aes256-cts"@.len() == 10);
    reveal_strlit("aes256-sha1");
    assert("aes256-sha1"@.len() == 11);
    reveal_strlit("aes128-cts-hmac-sha256-128");
    assert("aes128-cts-hmac-sha256-128"@.len() == 26);
    reveal_strlit("aes128-sha2");
    assert("aes128-sha2"@.len() == 11);
    reveal_strlit("aes256-cts-hmac-sha384-192");
    assert("aes256-cts-hmac-sha384-192"@.len() == 26);
    reveal_strlit("aes256-sha2");
    assert("aes256-sha2"@.len() == 11);
    reveal_strlit("des3-cbc-sha1-kd");
    assert("des3-cbc-sha1-kd"@.len() == 16);
    reveal_strlit("arcfour-hmac");
    assert("arcfour-hmac"@.len() == 12);
    reveal_strlit("rc4-hmac");
    assert("rc4-hmac"@.len() == 8);
    reveal_strlit("arcfour-hmac-md5");
    assert("arcfour-hmac-md5"@.len() == 16);
    assert("aes128-cts-hmac-sha1-96"@[3] == '1' && "aes128-cts-hmac-sha1-96"@[10] == '-' && "aes128-cts-hmac-sha1-96"@[0] == 'a');
    assert("aes128-cts"@[3] == '1' && "aes128-cts"@[0] == 'a');
    assert("aes128-sha1"@[3] == '1' && "aes128-sha1"@[10] == '1' && "aes128-sha1"@[0] == 'a');
    assert("aes256-cts-hmac-sha1-96"@[3] == '2' && "aes256-cts-hmac-sha1-96"@[10] == '-' && "aes256-cts-hmac-sha1-96"@[0] == 'a');
    assert("aes256-cts"@[3] == '2' && "aes256-cts"@[0] == 'a');
    assert("aes256-sha1"@[3] == '2' && "aes256-sha1"@[10] == '1' && "aes256-sha1"@[0] == 'a');
    assert("aes128-cts-hmac-sha256-128"@[3] == '1' && "aes128-cts-hmac-sha256-128"@[10] == '-' && "aes128-cts-hmac-sha256-128"@[0] == 'a');
    assert("aes128-sha2"@[3] == '1' && "aes128-sha2"@[10] == '2' && "aes128-sha2"@[0] == 'a');
    assert("aes256-cts-hmac-sha384-192"@[3] == '2' && "aes256-cts-hmac-sha384-192"@[10] == '-' && "aes256-cts-hmac-sha384-192"@[0] == 'a');
    assert("aes256-sha2"@[3] == '2' && "aes256-sha2"@[10] == '2' && "aes256-sha2"@[0] == 'a');
    assert("des3-cbc-sha1-kd"@[3] == '3' && "des3-cbc-sha1-kd"@[10] == 'h' && "des3-cbc-sha1-kd"@[0] == 'd');
    assert("arcfour-hmac"@[3] == 'f' && "arcfour-hmac"@[10] == 'a' && "arcfour-hmac"@[0] == 'a');
    assert("rc4-hmac"@[3] == '-' && "rc4-hmac"@[0] == 'r');
    assert("arcfour-hmac-md5"@[3] == 'f' && "arcfour-hmac-md5"@[10] == 'a' && "arcfour-hmac-md5"@[0] == 'a');
}

/// Whether an (already lower-cased) name is a weak encryption type.
pub open spec fn spec_weak_enctype(name: Seq<char>) -> bool {
    ||| name == "des-cbc-crc"@
    ||| name == "des-cbc-md4"@
    ||| name == "des-cbc-md5"@
    ||| name == "des-cbc-raw"@
    ||| name == "des3-cbc-raw"@
    ||| name == "des-hmac-sha1"@
    ||| name == "arcfour-hmac-exp"@
    ||| name == "rc4-hmac-exp"@
    ||| name == "arcfour-hmac-md5-exp"@
    ||| name == "des"@
}

/// The ids of the supported names, in order, weak ones skipped unless
/// allowed.
pub open spec fn spec_supported_enctype_ids(names: Seq<Seq<char>>, allow_weak: bool) -> Seq<i32>
    decreases names.len(),
{
    if names.len() == 0 {
        Seq::empty()
    } else {
        let rest = spec_supported_enctype_ids(names.drop_last(), allow_weak);
        let name = spec_ascii_lowercase(names.last());
        if (allow_weak || !spec_weak_enctype(name)) && spec_enctype_id(name) is Some {
            rest.push(spec_enctype_id(name)->Some_0)
        } else {
            rest
        }
    }
}

fn supported_enctype_id(name: &str) -> (r: Option<i32>)
    ensures
        r == spec_enctype_id(name@),
{
    if str_eq(name, "aes128-cts-hmac-sha1-96") || str_eq(name, "aes128-cts") || str_eq(
        name,
        "aes128-sha1",
    ) {
        Some(17)
    } else if str_eq(name, "aes256-cts-hmac-sha1-96") || str_eq(name, "aes256-cts") || str_eq(
        name,
        "aes256-sha1",
    ) {
        Some(18)
    } else if str_eq(name, "aes128-cts-hmac-sha256-128") || str_eq(name, "aes128-sha2") {
        Some(19)
    } else if str_eq(name, "aes256-cts-hmac-sha384-192") || str_eq(name, "aes256-sha2") {
        Some(20)
    } else if str_eq(name, "des3-cbc-sha1-kd") {
        Some(16)
    } else if str_eq(name, "arcfour-hmac") || str_eq(name, "rc4-hmac") || str_eq(
        name,
        "arcfour-hmac-md5",
    ) {
        Some(23)
    } else {
        None
    }
}

fn is_weak_enctype(name: &str) -> (r: bool)
    ensures
        r == spec_weak_enctype(name@),
{
    str_eq(name, "des-cbc-crc") || str_eq(name, "des-cbc-md4") || str_eq(name, "des-cbc-md5")
        || str_eq(name, "des-cbc-raw") || str_eq(name, "des3-cbc-raw") || str_eq(
        name,
        "des-hmac-sha1",
    ) || str_eq(name, "arcfour-hmac-exp") || str_eq(name, "rc4-hmac-exp") || str_eq(
        name,
        "arcfour-hmac-md5-exp",
    ) || str_eq(name, "des")
}

/// Parse enctype names to the subset of IDs implemented by this crate.
pub fn parse_supported_enctype_ids(enctypes: &[String], allow_weak_crypto: bool) -> (r: Vec<i32>)
    ensures
        r@ == spec_supported_enctype_ids(
            enctypes@.map_values(|s: String| s@),
            allow_weak_crypto,
        ),
{
    let ghost names = enctypes@.map_values(|s: String| s@);
    let mut out: Vec<i32> = Vec::new();
    let mut i: usize = 0;
    while i < enctypes.len()
        invariant
            i <= enctypes@.len(),
            names == enctypes@.map_values(|s: String| s@),
            out@ == spec_supported_enctype_ids(names.subrange(0, i as int), allow_weak_crypto),
        decreases enctypes@.len() - i,
    {
        let chars = str_chars(enctypes[i].as_str());
        let lower = ascii_lowercase(chars.as_slice());
        proof {
            assert(names.subrange(0, i + 1).drop_last() =~= names.subrange(0, i as int));
            assert(names.subrange(0, i + 1).last() == enctypes@[i as int]@);
        }
        if allow_weak_crypto || !is_weak_enctype(lower.as_str()) {
            match supported_enctype_id(lower.as_str()) {
                Some(id) => out.push(id),
                None => {},
            }
        }
        i = i + 1;
    }
    assert(names.subrange(0, enctypes@.len() as int) =~= names);
    out
}

// ---------------------------------------------------------------------------
// Durations

/// Why a duration is refused.
#[derive(Clone, Copy, Debug, Eq, PartialEq)]
pub enum DurationFault {
    /// Not a duration.
    Invalid,
    /// More seconds than a `u64` holds.
    Overflow,
}

/// `s` without its whitespace characters.
pub open spec fn spec_remove_whitespace(s: Seq<char>) -> Seq<char>
    decreases s.len(),
{
    if s.len() == 0 {
        Seq::empty()
    } else if spec_is_whitespace(s.last()) {
        spec_remove_whitespace(s.drop_last())
    } else {
        spec_remove_whitespace(s.drop_last()).push(s.last())
    }
}

/// `char::is_ascii_alphabetic`.
pub open spec fn spec_is_alpha(c: char) -> bool {
    ('a' <= c <= 'z') || ('A' <= c <= 'Z')
}

/// How many decimal digits `s` starts with.
pub open spec fn spec_digit_run(s: Seq<char>) -> nat
    decreases s.len(),
{
    if s.len() > 0 && crate::text::spec_is_digit(s[0]) {
        1 + spec_digit_run(s.drop_first())
    } else {
        0
    }
}

/// How many ASCII letters `s` starts with.
pub open spec fn spec_alpha_run(s: Seq<char>) -> nat
    decreases s.len(),
{
    if s.len() > 0 && spec_is_alpha(s[0]) {
        1 + spec_alpha_run(s.drop_first())
    } else {
        0
    }
}

/// The first group `<digits><unit>` of `s`, with unit `h`, `m` or `s`:
/// how many characters it takes and `acc` plus its seconds.
pub open spec fn spec_unit_step(s: Seq<char>, acc: nat) -> Result<(nat, nat), DurationFault> {
    let dl = spec_digit_run(s);
    if dl == 0 || dl > s.len() {
        Err(DurationFault::Invalid)
    } else {
        let number = crate::text::spec_digits_value(s.subrange(0, dl as int));
        let rest = s.subrange(dl as int, s.len() as int);
        let ul = spec_alpha_run(rest);
        let unit = rest.subrange(0, ul as int);
        if number > u64::MAX {
            Err(DurationFault::Invalid)
        } else if unit != "h"@ && unit != "m"@ && unit != "s"@ {
            Err(DurationFault::Invalid)
        } else {
            let secs = if unit == "h"@ {
                number * 3600
            } else if unit == "m"@ {
                number * 60
            } else {
                number
            };
            if secs > u64::MAX || acc + secs > u64::MAX {
                Err(DurationFault::Overflow)
            } else {
                Ok((dl + ul, acc + secs))
            }
        }
    }
}

/// Seconds of the groups `<digits><unit>` of `s`, added to `acc`.
pub open spec fn spec_unit_groups(s: Seq<char>, acc: nat) -> Result<nat, DurationFault>
    decreases s.len(),
{
    if s.len() == 0 {
        Ok(acc)
    } else {
        match spec_unit_step(s, acc) {
            Err(e) => Err(e),
            Ok((taken, next)) => if taken == 0 || taken > s.len() {
                Err(DurationFault::Invalid)
            } else {
                spec_unit_groups(s.subrange(taken as int, s.len() as int), next)
            },
        }
    }
}

/// A duration written with unit suffixes, such as `12h30m15s`.
pub open spec fn spec_unit_duration(s: Seq<char>) -> Result<nat, DurationFault> {
    if s.len() == 0 {
        Err(DurationFault::Invalid)
    } else {
        spec_unit_groups(s, 0)
    }
}

/// `s` split at every `c`.
pub open spec fn spec_split(s: Seq<char>, c: char) -> Seq<Seq<char>>
    decreases s.len(),
{
    if s.len() == 0 {
        seq![Seq::empty()]
    } else {
        let parts = spec_split(s.drop_last(), c);
        if s.last() == c {
            parts.push(Seq::empty())
        } else {
            parts.update(parts.len() - 1, parts.last().push(s.last()))
        }
    }
}

/// A duration written `h:m` or `h:m:s`.
pub open spec fn spec_colon_duration(s: Seq<char>) -> Result<nat, DurationFault> {
    let parts = spec_split(s, ':');
    if parts.len() != 2 && parts.len() != 3 {
        Err(DurationFault::Invalid)
    } else {
        match (
            spec_parse_unsigned(parts[0], u64::MAX as nat),
            spec_parse_unsigned(parts[1], u64::MAX as nat),
            if parts.len() == 3 {
                spec_parse_unsigned(parts[2], u64::MAX as nat)
            } else {
                Some(0nat)
            },
        ) {
            (Some(h), Some(m), Some(x)) => if h * 3600 + m * 60 + x > u64::MAX {
                Err(DurationFault::Overflow)
            } else {
                Ok(h * 3600 + m * 60 + x)
            },
            _ => Err(DurationFault::Invalid),
        }
    }
}

/// A krb5 duration in seconds: whitespace is ignored; `<days>d` may lead
/// unit groups; otherwise unit groups (`12h30m15s`), a positive number of
/// seconds, or `h:m[:s]`.
pub open spec fn spec_parse_duration(value: Seq<char>) -> Result<nat, DurationFault> {
    spec_duration_seconds(spec_remove_whitespace(value))
}

/// A duration without whitespace, in seconds.
pub open spec fn spec_duration_seconds(n: Seq<char>) -> Result<nat, DurationFault> {
    if n.len() == 0 {
        Err(DurationFault::Invalid)
    } else {
        match spec_find(n, 'd') {
            Some(p) => spec_days_duration(n.subrange(0, p), n.subrange(p + 1, n.len() as int)),
            None => spec_dayless_duration(n),
        }
    }
}

/// `<days>d` followed by optional unit groups.
pub open spec fn spec_days_duration(days: Seq<char>, rest: Seq<char>) -> Result<nat, DurationFault> {
    match spec_parse_unsigned(days, u64::MAX as nat) {
        None => Err(DurationFault::Invalid),
        Some(days) => if days * 86400 > u64::MAX {
            Err(DurationFault::Overflow)
        } else if rest.len() == 0 {
            Ok(days * 86400)
        } else {
            match spec_unit_duration(rest) {
                Err(e) => Err(e),
                Ok(r) => if days * 86400 + r > u64::MAX {
                    Err(DurationFault::Overflow)
                } else {
                    Ok(days * 86400 + r)
                },
            }
        },
    }
}

/// A duration with no `d`: unit groups, a positive number of seconds, or
/// `h:m[:s]`.
pub open spec fn spec_dayless_duration(n: Seq<char>) -> Result<nat, DurationFault> {
    match spec_unit_duration(n) {
        Ok(d) => Ok(d),
        Err(_) => match spec_parse_unsigned(n, u64::MAX as nat) {
            Some(x) if x > 0 => Ok(x),
            _ => if spec_count(n, ':') > 0 {
                spec_colon_duration(n)
            } else {
                Err(DurationFault::Invalid)
            },
        },
    }
}

fn remove_whitespace(s: &[char]) -> (r: Vec<char>)
    ensures
        r@ == spec_remove_whitespace(s@),
{
    let mut out: Vec<char> = Vec::new();
    let mut i: usize = 0;
    while i < s.len()
        invariant
            i <= s@.len(),
            out@ == spec_remove_whitespace(s@.subrange(0, i as int)),
        decreases s@.len() - i,
    {
        assert(s@.subrange(0, i + 1).drop_last() =~= s@.subrange(0, i as int));
        if !crate::text::is_whitespace(s[i]) {
            out.push(s[i]);
        }
        i = i + 1;
    }
    assert(s@.subrange(0, s@.len() as int) =~= s@);
    out
}

proof fn lemma_run_is(s: Seq<char>, k: int, digits: bool)
    requires
        0 <= k <= s.len(),
        forall|j: int|
            0 <= j < k ==> if digits {
                crate::text::spec_is_digit(s[j])
            } else {
                spec_is_alpha(s[j])
            },
        k < s.len() ==> !(if digits {
            crate::text::spec_is_digit(s[k])
        } else {
            spec_is_alpha(s[k])
        }),
    ensures
        digits ==> spec_digit_run(s) == k,
        !digits ==> spec_alpha_run(s) == k,
    decreases k,
{
    if k > 0 {
        assert forall|j: int| 0 <= j < k - 1 implies (if digits {
            crate::text::spec_is_digit(s.drop_first()[j])
        } else {
            spec_is_alpha(s.drop_first()[j])
        }) by {
            assert(s.drop_first()[j] == s[j + 1]);
        }
        lemma_run_is(s.drop_first(), k - 1, digits);
    }
}

#[verifier::spinoff_prover]
#[verifier::rlimit(40)]
fn unit_step(s: &[char], i: usize, acc: u64) -> (r: Result<(usize, u64), DurationFault>)
    requires
        i < s@.len(),
    ensures
        match spec_unit_step(s@.subrange(i as int, s@.len() as int), acc as nat) {
            Ok((taken, next)) => r matches Ok((k, a)) && k == i + taken && a == next && 0 < taken
                && k <= s@.len(),
            Err(e) => r == Err::<(usize, u64), DurationFault>(e),
        },
{
    let ghost rest = s@.subrange(i as int, s@.len() as int);
    let mut j = i;
    while j < s.len() && '0' <= s[j] && s[j] <= '9'
        invariant
            i <= j <= s@.len(),
            forall|k: int| i <= k < j ==> crate::text::spec_is_digit(s@[k]),
        decreases s@.len() - j,
    {
        j = j + 1;
    }
    proof {
        lemma_run_is(rest, (j - i) as int, true);
    }
    if j == i {
        return Err(DurationFault::Invalid);
    }
    let digits = &s[i..j];
    proof {
        assert(digits@ =~= rest.subrange(0, (j - i) as int));
        assert(crate::text::spec_unsigned_digits(digits@) == digits@);
    }
    let number = match parse_u64(digits) {
        Some(n) => n,
        None => {
            return Err(DurationFault::Invalid);
        },
    };
    let ghost after_digits = rest.subrange((j - i) as int, rest.len() as int);
    let mut k = j;
    while k < s.len() && (('a' <= s[k] && s[k] <= 'z') || ('A' <= s[k] && s[k] <= 'Z'))
        invariant
            j <= k <= s@.len(),
            forall|m: int| j <= m < k ==> spec_is_alpha(s@[m]),
        decreases s@.len() - k,
    {
        k = k + 1;
    }
    proof {
        assert(after_digits =~= s@.subrange(j as int, s@.len() as int));
        lemma_run_is(after_digits, (k - j) as int, false);
    }
    let unit = &s[j..k];
    proof {
        assert(unit@ =~= after_digits.subrange(0, (k - j) as int));
        reveal_strlit("h");
        reveal_strlit("m");
        reveal_strlit("s");
    }
    let h = unit.len() == 1 && unit[0] == 'h';
    let m = unit.len() == 1 && unit[0] == 'm';
    let sec = unit.len() == 1 && unit[0] == 's';
    proof {
        assert(h == (unit@ == "h"@)) by {
            if unit@.len() == 1 && unit@[0] == 'h' {
                assert(unit@ =~= "h"@);
            }
        }
        assert(m == (unit@ == "m"@)) by {
            if unit@.len() == 1 && unit@[0] == 'm' {
                assert(unit@ =~= "m"@);
            }
        }
        assert(sec == (unit@ == "s"@)) by {
            if unit@.len() == 1 && unit@[0] == 's' {
                assert(unit@ =~= "s"@);
            }
        }
    }
    let secs = if h {
        if number > u64::MAX / 3600 {
            return Err(DurationFault::Overflow);
        }
        number * 3600
    } else if m {
        if number > u64::MAX / 60 {
            return Err(DurationFault::Overflow);
        }
        number * 60
    } else if sec {
        number
    } else {
        return Err(DurationFault::Invalid);
    };
    if acc > u64::MAX - secs {
        return Err(DurationFault::Overflow);
    }
    Ok((k, acc + secs))
}

/// Seconds of the unit groups of `s`, or why they are refused.
fn unit_duration(s: &[char]) -> (r: Result<u64, DurationFault>)
    ensures
        match spec_unit_duration(s@) {
            Ok(v) => r == Ok::<u64, DurationFault>(v as u64) && v <= u64::MAX,
            Err(e) => r == Err::<u64, DurationFault>(e),
        },
{
    if s.len() == 0 {
        return Err(DurationFault::Invalid);
    }
    let mut acc: u64 = 0;
    let mut i: usize = 0;
    proof {
        assert(s@.subrange(0, s@.len() as int) =~= s@);
    }
    while i < s.len()
        invariant
            i <= s@.len(),
            s@.len() > 0,
            spec_unit_duration(s@) == spec_unit_groups(
                s@.subrange(i as int, s@.len() as int),
                acc as nat,
            ),
        decreases s@.len() - i,
    {
        let ghost rest = s@.subrange(i as int, s@.len() as int);
        match unit_step(s, i, acc) {
            Err(e) => {
                return Err(e);
            },
            Ok((k, a)) => {
                proof {
                    assert(rest.subrange((k - i) as int, rest.len() as int) =~= s@.subrange(
                        k as int,
                        s@.len() as int,
                    ));
                }
                i = k;
                acc = a;
            },
        }
    }
    proof {
        assert(s@.subrange(i as int, s@.len() as int) =~= Seq::<char>::empty());
    }
    Ok(acc)
}

pub(crate) fn split_chars(s: &[char], c: char) -> (r: Vec<Vec<char>>)
    ensures
        r@.map_values(|p: Vec<char>| p@) == spec_split(s@, c),
{
    let mut parts: Vec<Vec<char>> = Vec::new();
    let mut current: Vec<char> = Vec::new();
    let mut i: usize = 0;
    proof {
        assert(s@.subrange(0, 0) =~= Seq::<char>::empty());
        assert(parts@.map_values(|p: Vec<char>| p@) + seq![current@] =~= spec_split(
            s@.subrange(0, 0),
            c,
        ));
    }
    while i < s.len()
        invariant
            i <= s@.len(),
            parts@.map_values(|p: Vec<char>| p@) + seq![current@] == spec_split(
                s@.subrange(0, i as int),
                c,
            ),
        decreases s@.len() - i,
    {
        let ghost before = parts@.map_values(|p: Vec<char>| p@);
        let ghost cur = current@;
        assert(s@.subrange(0, i + 1).drop_last() =~= s@.subrange(0, i as int));
        if s[i] == c {
            let done = current;
            parts.push(done);
            current = Vec::new();
            assert(parts@.map_values(|p: Vec<char>| p@) =~= before.push(cur));
            assert(parts@.map_values(|p: Vec<char>| p@) + seq![current@] =~= (before + seq![
                cur,
            ]).push(Seq::<char>::empty()));
        } else {
            current.push(s[i]);
            assert(parts@.map_values(|p: Vec<char>| p@) + seq![current@] =~= (before + seq![
                cur,
            ]).update((before + seq![cur]).len() - 1, cur.push(s@[i as int])));
        }
        i = i + 1;
    }
    parts.push(current);
    assert(s@.subrange(0, s@.len() as int) =~= s@);
    parts
}

fn colon_duration(s: &[char]) -> (r: Result<u64, DurationFault>)
    ensures
        match spec_colon_duration(s@) {
            Ok(v) => r == Ok::<u64, DurationFault>(v as u64),
            Err(e) => r == Err::<u64, DurationFault>(e),
        },
{
    let parts = split_chars(s, ':');
    let ghost views = parts@.map_values(|p: Vec<char>| p@);
    if parts.len() != 2 && parts.len() != 3 {
        return Err(DurationFault::Invalid);
    }
    assert(views[0] == parts@[0]@ && views[1] == parts@[1]@);
    let h = match parse_u64(parts[0].as_slice()) {
        Some(v) => v,
        None => return Err(DurationFault::Invalid),
    };
    let m = match parse_u64(parts[1].as_slice()) {
        Some(v) => v,
        None => return Err(DurationFault::Invalid),
    };
    let x = if parts.len() == 3 {
        assert(views[2] == parts@[2]@);
        match parse_u64(parts[2].as_slice()) {
            Some(v) => v,
            None => return Err(DurationFault::Invalid),
        }
    } else {
        0
    };
    let total: u128 = (h as u128) * 3600 + (m as u128) * 60 + (x as u128);
    if total > 0xffff_ffff_ffff_ffffu128 {
        return Err(DurationFault::Overflow);
    }
    Ok(total as u64)
}

/// Parse a krb5 duration value into seconds.
///
/// Supported forms: seconds (`100`), unit suffixes (`12h30m15s`), days plus
/// suffixes (`1d12h`), and `h:m[:s]`.
pub fn parse_duration(value: &str) -> (r: Result<u64, Error>)
    ensures
        match spec_parse_duration(value@) {
            Ok(v) => r == Ok::<u64, Error>(v as u64),
            Err(DurationFault::Invalid) => r matches Err(Error::InvalidDuration(s)) && s@ == value@,
            Err(DurationFault::Overflow) => r matches Err(Error::DurationOverflow(s)) && s@
                == value@,
        },
{
    let chars = str_chars(value);
    let n = remove_whitespace(chars.as_slice());
    let outcome = duration_seconds(n.as_slice());
    match outcome {
        Ok(v) => Ok(v),
        Err(DurationFault::Invalid) => Err(Error::InvalidDuration(value.to_owned())),
        Err(DurationFault::Overflow) => Err(Error::DurationOverflow(value.to_owned())),
    }
}

fn duration_seconds(n: &[char]) -> (r: Result<u64, DurationFault>)
    ensures
        match spec_duration_seconds(n@) {
            Ok(v) => r == Ok::<u64, DurationFault>(v as u64),
            Err(e) => r == Err::<u64, DurationFault>(e),
        },
{
    if n.len() == 0 {
        return Err(DurationFault::Invalid);
    }
    match find_char(n, 'd') {
        Some(p) => days_duration(&n[0..p], &n[p + 1..n.len()]),
        None => dayless_duration(n),
    }
}

fn days_duration(head: &[char], rest: &[char]) -> (r: Result<u64, DurationFault>)
    ensures
        match spec_days_duration(head@, rest@) {
            Ok(v) => r == Ok::<u64, DurationFault>(v as u64),
            Err(e) => r == Err::<u64, DurationFault>(e),
        },
{
    let days = match parse_u64(head) {
        Some(d) => d,
        None => return Err(DurationFault::Invalid),
    };
    proof {
        assert(days > u64::MAX / 86400 <==> days * 86400 > u64::MAX) by (nonlinear_arith);
    }
    if days > u64::MAX / 86400 {
        return Err(DurationFault::Overflow);
    }
    let day_secs = days * 86400;
    if rest.len() == 0 {
        return Ok(day_secs);
    }
    match unit_duration(rest) {
        Err(e) => Err(e),
        Ok(x) => if day_secs > u64::MAX - x {
            Err(DurationFault::Overflow)
        } else {
            Ok(day_secs + x)
        },
    }
}

fn dayless_duration(n: &[char]) -> (r: Result<u64, DurationFault>)
    ensures
        match spec_dayless_duration(n@) {
            Ok(v) => r == Ok::<u64, DurationFault>(v as u64),
            Err(e) => r == Err::<u64, DurationFault>(e),
        },
{
    match unit_duration(n) {
        Ok(d) => Ok(d),
        Err(_) => {
            match parse_u64(n) {
                Some(x) => if x > 0 {
                    return Ok(x);
                },
                None => {},
            }
            if count_char(n, ':') > 0 {
                colon_duration(n)
            } else {
                Err(DurationFault::Invalid)
            }
        },
    }
}


// ---------------------------------------------------------------------------
// Laws of durations

/// The seconds of a duration unit: an hour is 3600, a minute 60, a second 1.
pub open spec fn spec_unit_seconds(unit: char) -> nat {
    if unit == 'h' {
        3600
    } else if unit == 'm' {
        60
    } else {
        1
    }
}

proof fn lemma_no_whitespace(t: Seq<char>)
    requires
        forall|i: int| 0 <= i < t.len() ==> !spec_is_whitespace(#[trigger] t[i]),
    ensures
        spec_remove_whitespace(t) == t,
    decreases t.len(),
{
    if t.len() > 0 {
        lemma_no_whitespace(t.drop_last());
        assert(t.drop_last().push(t.last()) =~= t);
    }
}

proof fn lemma_digit_run_of(ds: Seq<char>, t: Seq<char>)
    requires
        crate::text::spec_all_digits(ds),
        t.len() == 0 || !crate::text::spec_is_digit(t[0]),
    ensures
        spec_digit_run(ds + t) == ds.len(),
    decreases ds.len(),
{
    if ds.len() > 0 {
        assert(crate::text::spec_is_digit(ds[0]));
        assert((ds + t)[0] == ds[0]);
        assert((ds + t).drop_first() =~= ds.drop_first() + t);
        lemma_digit_run_of(ds.drop_first(), t);
    } else {
        assert(ds + t =~= t);
    }
}

proof fn lemma_parse_decimal(n: nat)
    requires
        n <= u64::MAX,
    ensures
        spec_parse_unsigned(crate::text::spec_decimal(n), u64::MAX as nat) == Some(n),
{
    crate::client::transport::lemma_decimal_parses(n);
    let d = crate::text::spec_decimal(n);
    assert(crate::text::spec_is_digit(d[0]));
}

/// The unit group `<n><unit>`.
pub open spec fn spec_unit_group(n: nat, unit: char) -> Seq<char> {
    crate::text::spec_decimal(n).push(unit)
}

proof fn lemma_group_chars(n: nat, unit: char)
    requires
        unit == 'h' || unit == 'm' || unit == 's',
    ensures
        forall|i: int|
            0 <= i < spec_unit_group(n, unit).len() ==> {
                let c = #[trigger] spec_unit_group(n, unit)[i];
                &&& !spec_is_whitespace(c)
                &&& c != 'd'
                &&& c != ':'
            },
        spec_unit_group(n, unit).len() > 1,
        crate::text::spec_is_digit(spec_unit_group(n, unit)[0]),
{
    crate::client::transport::lemma_decimal_parses(n);
    let d = crate::text::spec_decimal(n);
    assert forall|i: int| 0 <= i < spec_unit_group(n, unit).len() implies {
        let c = #[trigger] spec_unit_group(n, unit)[i];
        &&& !spec_is_whitespace(c)
        &&& c != 'd'
        &&& c != ':'
    } by {
        if i < d.len() {
            assert(spec_unit_group(n, unit)[i] == d[i]);
            assert(crate::text::spec_is_digit(d[i]));
        }
    }
}

#[verifier::rlimit(30)]
proof fn lemma_unit_groups_step(n: nat, unit: char, t: Seq<char>, acc: nat)
    requires
        unit == 'h' || unit == 'm' || unit == 's',
        t.len() == 0 || crate::text::spec_is_digit(t[0]),
        acc + n * spec_unit_seconds(unit) <= u64::MAX,
    ensures
        spec_unit_groups(spec_unit_group(n, unit) + t, acc) == spec_unit_groups(
            t,
            acc + n * spec_unit_seconds(unit),
        ),
{
    reveal_strlit("h");
    reveal_strlit("m");
    reveal_strlit("s");
    crate::client::transport::lemma_decimal_parses(n);
    let d = crate::text::spec_decimal(n);
    let g = spec_unit_group(n, unit);
    let s = g + t;
    assert(s =~= d + (seq![unit] + t));
    lemma_digit_run_of(d, seq![unit] + t);
    assert(n * spec_unit_seconds(unit) >= n) by (nonlinear_arith)
        requires
            spec_unit_seconds(unit) >= 1,
    ;
    assert(s.subrange(0, d.len() as int) =~= d);
    let rest = s.subrange(d.len() as int, s.len() as int);
    assert(rest =~= seq![unit] + t);
    assert(rest.drop_first() =~= t);
    assert(spec_alpha_run(t) == 0);
    assert(spec_alpha_run(rest) == 1);
    assert(rest.subrange(0, 1) =~= seq![unit]);
    assert(spec_digit_run(s) == d.len());
    assert(crate::text::spec_digits_value(s.subrange(0, d.len() as int)) == n);
    assert("h"@ =~= seq!['h']);
    assert("m"@ =~= seq!['m']);
    assert("s"@ =~= seq!['s']);
    assert(seq![unit][0] == unit);
    assert(seq!['h'][0] == 'h' && seq!['m'][0] == 'm' && seq!['s'][0] == 's');
    assert(spec_unit_step(s, acc) == Ok::<(nat, nat), DurationFault>(
        (g.len(), acc + n * spec_unit_seconds(unit)),
    ));
    assert(s.subrange(g.len() as int, s.len() as int) =~= t);
}

proof fn lemma_group_durations(h: nat, m: nat, s: nat)
    requires
        h * 3600 + m * 60 + s <= u64::MAX,
    ensures
        spec_parse_duration(spec_unit_group(h, 'h') + spec_unit_group(m, 'm') + spec_unit_group(s, 's'))
            == Ok::<nat, DurationFault>(h * 3600 + m * 60 + s),
{
    assert(h * 3600 >= 0 && m * 60 >= 0) by (nonlinear_arith);
    let gh = spec_unit_group(h, 'h');
    let gm = spec_unit_group(m, 'm');
    let gs = spec_unit_group(s, 's');
    lemma_group_chars(h, 'h');
    lemma_group_chars(m, 'm');
    lemma_group_chars(s, 's');
    lemma_unit_groups_step(s, 's', Seq::empty(), h * 3600 + m * 60);
    assert(gs + Seq::<char>::empty() =~= gs);
    lemma_unit_groups_step(m, 'm', gs, h * 3600);
    lemma_unit_groups_step(h, 'h', gm + gs, 0);
    let all = gh + gm + gs;
    assert(all =~= gh + (gm + gs));
    assert forall|k: int| 0 <= k < all.len() implies {
        let c = #[trigger] all[k];
        &&& !spec_is_whitespace(c)
        &&& c != 'd'
    } by {
        if k < gh.len() {
            assert(all[k] == gh[k]);
        } else if k < gh.len() + gm.len() {
            assert(all[k] == gm[k - gh.len()]);
        } else {
            assert(all[k] == gs[k - gh.len() - gm.len()]);
        }
    }
    lemma_no_whitespace(all);
    assert(spec_find(all, 'd') is None);
}

proof fn lemma_one_group_duration(n: nat, unit: char)
    requires
        unit == 'h' || unit == 'm' || unit == 's',
        n * spec_unit_seconds(unit) <= u64::MAX,
    ensures
        spec_parse_duration(spec_unit_group(n, unit)) == Ok::<nat, DurationFault>(
            n * spec_unit_seconds(unit),
        ),
{
    let g = spec_unit_group(n, unit);
    lemma_group_chars(n, unit);
    lemma_unit_groups_step(n, unit, Seq::empty(), 0);
    assert(g + Seq::<char>::empty() =~= g);
    lemma_no_whitespace(g);
    assert(spec_find(g, 'd') is None);
}

proof fn lemma_days_hours_duration(d: nat, h: nat)
    requires
        d * 86400 + h * 3600 <= u64::MAX,
    ensures
        spec_parse_duration(spec_unit_group(d, 'd') + spec_unit_group(h, 'h')) == Ok::<
            nat,
            DurationFault,
        >(d * 86400 + h * 3600),
{
    assert(d * 86400 >= 0 && h * 3600 >= 0) by (nonlinear_arith);
    let gh = spec_unit_group(h, 'h');
    lemma_group_chars(h, 'h');
    lemma_unit_groups_step(h, 'h', Seq::empty(), 0);
    assert(gh + Seq::<char>::empty() =~= gh);
    assert(d <= u64::MAX) by (nonlinear_arith)
        requires
            d * 86400 <= u64::MAX,
    ;
    crate::client::transport::lemma_decimal_parses(d);
    let dd = crate::text::spec_decimal(d);
    let dh = spec_unit_group(d, 'd') + gh;
    assert(dh =~= dd + seq!['d'] + gh);
    assert forall|k: int| 0 <= k < dh.len() implies !spec_is_whitespace(#[trigger] dh[k]) by {
        if k < dd.len() {
            assert(dh[k] == dd[k]);
            assert(crate::text::spec_is_digit(dd[k]));
        } else if k > dd.len() {
            assert(dh[k] == gh[k - dd.len() - 1]);
        }
    }
    lemma_no_whitespace(dh);
    assert forall|k: int| 0 <= k < dd.len() implies dh[k] != 'd' by {
        assert(dh[k] == dd[k]);
        assert(crate::text::spec_is_digit(dd[k]));
    }
    assert(dh[dd.len() as int] == 'd');
    assert(spec_find(dh, 'd') == Some(dd.len() as int));
    assert(dh.subrange(0, dd.len() as int) =~= dd);
    assert(dh.subrange(dd.len() as int + 1, dh.len() as int) =~= gh);
    lemma_parse_decimal(d);
}

#[verifier::rlimit(30)]
proof fn lemma_bare_seconds(s: nat)
    requires
        0 < s <= u64::MAX,
    ensures
        spec_parse_duration(crate::text::spec_decimal(s)) == Ok::<nat, DurationFault>(s),
{
    crate::client::transport::lemma_decimal_parses(s);
    let ds = crate::text::spec_decimal(s);
    assert forall|k: int| 0 <= k < ds.len() implies !spec_is_whitespace(#[trigger] ds[k]) && ds[k]
        != 'd' by {
        assert(crate::text::spec_is_digit(ds[k]));
    }
    lemma_no_whitespace(ds);
    assert(spec_find(ds, 'd') is None);
    lemma_parse_decimal(s);
    reveal_strlit("h");
    reveal_strlit("m");
    reveal_strlit("s");
    lemma_digit_run_of(ds, Seq::empty());
    assert(ds + Seq::<char>::empty() =~= ds);
    let rest = ds.subrange(ds.len() as int, ds.len() as int);
    assert(rest =~= Seq::<char>::empty());
    assert(spec_alpha_run(rest) == 0);
    assert(rest.subrange(0, 0) =~= Seq::<char>::empty());
    assert("h"@.len() == 1 && "m"@.len() == 1 && "s"@.len() == 1);
    assert(spec_unit_step(ds, 0) is Err);
    assert(spec_unit_groups(ds, 0) is Err);
}

/// Durations count 86400 seconds a day, 3600 an hour, 60 a minute: for
/// any numbers written in decimal, `<h>h<m>m<s>s` is `h*3600 + m*60 + s`
/// seconds, `<n>h`, `<n>m` and `<n>s` are `n*3600`, `n*60` and `n`,
/// `<d>d<h>h` is `d*86400 + h*3600`, and a positive bare number is that
/// many seconds; whenever the total fits in 64 bits.
pub proof fn lemma_duration_units(d: nat, h: nat, m: nat, s: nat)
    requires
        d * 86400 + h * 3600 + m * 60 + s <= u64::MAX,
    ensures
        spec_parse_duration(spec_unit_group(h, 'h') + spec_unit_group(m, 'm') + spec_unit_group(s, 's'))
            == Ok::<nat, DurationFault>(h * 3600 + m * 60 + s),
        spec_parse_duration(spec_unit_group(h, 'h')) == Ok::<nat, DurationFault>(h * 3600),
        spec_parse_duration(spec_unit_group(m, 'm')) == Ok::<nat, DurationFault>(m * 60),
        spec_parse_duration(spec_unit_group(s, 's')) == Ok::<nat, DurationFault>(s),
        spec_parse_duration(spec_unit_group(d, 'd') + spec_unit_group(h, 'h')) == Ok::<
            nat,
            DurationFault,
        >(d * 86400 + h * 3600),
        s > 0 ==> spec_parse_duration(crate::text::spec_decimal(s)) == Ok::<nat, DurationFault>(s),
{
    assert(d * 86400 >= 0 && h * 3600 >= 0 && m * 60 >= 0) by (nonlinear_arith);
    lemma_group_durations(h, m, s);
    lemma_one_group_duration(h, 'h');
    lemma_one_group_duration(m, 'm');
    lemma_one_group_duration(s, 's');
    lemma_days_hours_duration(d, h);
    if s > 0 {
        lemma_bare_seconds(s);
    }
}

} // verus!
