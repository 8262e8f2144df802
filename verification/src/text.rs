//! String helpers with their behaviour stated over character sequences.

use vstd::prelude::*;
use vstd::string::StrSliceExecFns;
use vstd::string::StringExecFns;
use vstd::utf8::{decode_utf8, valid_utf8};

verus! {

/// `parts` joined with `sep` between neighbours.
pub open spec fn spec_join(parts: Seq<Seq<char>>, sep: Seq<char>) -> Seq<char>
    decreases parts.len(),
{
    if parts.len() == 0 {
        Seq::empty()
    } else if parts.len() == 1 {
        parts[0]
    } else {
        spec_join(parts.drop_last(), sep) + sep + parts.last()
    }
}

/// Character views of a sequence of strings.
pub open spec fn spec_string_views(strings: Seq<String>) -> Seq<Seq<char>> {
    strings.map_values(|s: String| s@)
}

/// Whether `s` begins with `prefix`.
pub open spec fn spec_has_prefix(s: Seq<char>, prefix: Seq<char>) -> bool {
    prefix.len() <= s.len() && s.subrange(0, prefix.len() as int) == prefix
}

/// Whether two strings hold the same characters.
pub(crate) fn str_eq(a: &str, b: &str) -> (r: bool)
    ensures
        r == (a@ == b@),
{
    let x = str_chars(a);
    let y = str_chars(b);
    if x.len() != y.len() {
        return false;
    }
    let mut i: usize = 0;
    while i < x.len()
        invariant
            x@ == a@,
            y@ == b@,
            x@.len() == y@.len(),
            i <= x@.len(),
            x@.subrange(0, i as int) == y@.subrange(0, i as int),
        decreases x@.len() - i,
    {
        if x[i] != y[i] {
            assert(x@[i as int] != y@[i as int]);
            return false;
        }
        assert(x@.subrange(0, i + 1) =~= y@.subrange(0, i + 1));
        i = i + 1;
    }
    assert(x@ =~= x@.subrange(0, i as int));
    assert(y@ =~= y@.subrange(0, i as int));
    true
}

/// `str::starts_with` with a string pattern: true exactly when `prefix` is a
/// prefix of `s`.
#[verifier::external_body]
pub(crate) fn str_starts_with(s: &str, prefix: &str) -> (r: bool)
    ensures
        r == spec_has_prefix(s@, prefix@),
{
    s.starts_with(prefix)
}

/// `String::push`: appends one character.
#[verifier::external_body]
pub(crate) fn string_push(s: &mut String, c: char)
    ensures
        final(s)@ == old(s)@.push(c),
{
    s.push(c)
}

/// `std::str::from_utf8`: succeeds exactly on well-formed UTF-8 and then holds
/// the decoded characters.
#[verifier::external_body]
pub(crate) fn str_from_utf8(bytes: &[u8]) -> (r: Option<&str>)
    ensures
        r is Some <==> valid_utf8(bytes@),
        r matches Some(s) ==> s@ == decode_utf8(bytes@),
{
    std::str::from_utf8(bytes).ok()
}

/// The characters `String::from_utf8_lossy` makes of some bytes.
pub uninterp spec fn utf8_lossy(bytes: Seq<u8>) -> Seq<char>;

/// `String::from_utf8_lossy`, made owned: its result is named by the bytes
/// alone, and well-formed UTF-8 comes out decoded as it stands (std's
/// documentation: ill-formed sequences become U+FFFD, which is not stated).
#[verifier::external_body]
pub(crate) fn string_from_utf8_lossy(bytes: &[u8]) -> (r: String)
    ensures
        r@ == utf8_lossy(bytes@),
        valid_utf8(bytes@) ==> r@ == decode_utf8(bytes@),
{
    String::from_utf8_lossy(bytes).into_owned()
}

/// The characters of `s`, in order.
pub fn str_chars(s: &str) -> (r: Vec<char>)
    ensures
        r@ == s@,
{
    let n = s.unicode_len();
    let mut out: Vec<char> = Vec::new();
    let mut i: usize = 0;
    while i < n
        invariant
            n == s@.len(),
            i <= n,
            out@ == s@.subrange(0, i as int),
        decreases n - i,
    {
        out.push(s.get_char(i));
        i = i + 1;
        assert(out@ =~= s@.subrange(0, i as int));
    }
    assert(s@.subrange(0, n as int) =~= s@);
    out
}

/// A string holding `chars`.
pub fn string_from_chars(chars: &[char]) -> (r: String)
    ensures
        r@ == chars@,
{
    let mut out = String::new();
    let mut i: usize = 0;
    while i < chars.len()
        invariant
            i <= chars@.len(),
            out@ == chars@.subrange(0, i as int),
        decreases chars@.len() - i,
    {
        string_push(&mut out, chars[i]);
        i = i + 1;
        assert(out@ =~= chars@.subrange(0, i as int));
    }
    assert(chars@.subrange(0, chars@.len() as int) =~= chars@);
    out
}

/// A copy of `s`.
pub fn copy_string(s: &String) -> (r: String)
    ensures
        r@ == s@,
{
    s.as_str().to_owned()
}

/// A copy of each string in `strings`.
pub fn copy_strings(strings: &Vec<String>) -> (r: Vec<String>)
    ensures
        spec_string_views(r@) == spec_string_views(strings@),
{
    let mut out: Vec<String> = Vec::new();
    let mut i: usize = 0;
    while i < strings.len()
        invariant
            i <= strings@.len(),
            out@.len() == i,
            forall|j: int| 0 <= j < i ==> (#[trigger] out@[j])@ == strings@[j]@,
        decreases strings@.len() - i,
    {
        out.push(copy_string(&strings[i]));
        i = i + 1;
    }
    assert(spec_string_views(out@) =~= spec_string_views(strings@));
    out
}

/// `parts` joined with `sep` between neighbours.
pub fn join_strings(parts: &Vec<String>, sep: &str) -> (r: String)
    ensures
        r@ == spec_join(spec_string_views(parts@), sep@),
{
    let ghost views = spec_string_views(parts@);
    let mut out = String::new();
    let mut i: usize = 0;
    while i < parts.len()
        invariant
            i <= parts@.len(),
            views == spec_string_views(parts@),
            out@ == spec_join(views.subrange(0, i as int), sep@),
        decreases parts@.len() - i,
    {
        if i != 0 {
            out.append(sep);
        }
        out.append(parts[i].as_str());
        i = i + 1;
        assert(views.subrange(0, i as int).drop_last() =~= views.subrange(0, i - 1));
    }
    assert(views.subrange(0, parts@.len() as int) =~= views);
    out
}

/// Character views of a sequence of string slices.
pub open spec fn spec_str_views(strings: Seq<&str>) -> Seq<Seq<char>> {
    strings.map_values(|s: &str| s@)
}

/// Whether `owned` and `borrowed` hold the same strings, in the same order.
pub fn strings_match(owned: &Vec<String>, borrowed: &[&str]) -> (r: bool)
    ensures
        r == (spec_string_views(owned@) == spec_str_views(borrowed@)),
{
    let ghost mine = spec_string_views(owned@);
    let ghost theirs = spec_str_views(borrowed@);
    if owned.len() != borrowed.len() {
        assert(mine.len() != theirs.len());
        return false;
    }
    let mut i: usize = 0;
    while i < borrowed.len()
        invariant
            i <= borrowed@.len(),
            owned@.len() == borrowed@.len(),
            mine == spec_string_views(owned@),
            theirs == spec_str_views(borrowed@),
            forall|j: int| 0 <= j < i ==> mine[j] == theirs[j],
        decreases borrowed@.len() - i,
    {
        if !str_eq(owned[i].as_str(), borrowed[i]) {
            assert(mine[i as int] != theirs[i as int]);
            return false;
        }
        i = i + 1;
    }
    assert(mine =~= theirs);
    true
}

/// `parts` joined with `sep` between neighbours.
pub fn join_strs(parts: &[&str], sep: &str) -> (r: String)
    ensures
        r@ == spec_join(spec_str_views(parts@), sep@),
{
    let ghost views = spec_str_views(parts@);
    let mut out = String::new();
    let mut i: usize = 0;
    while i < parts.len()
        invariant
            i <= parts@.len(),
            views == spec_str_views(parts@),
            out@ == spec_join(views.subrange(0, i as int), sep@),
        decreases parts@.len() - i,
    {
        if i != 0 {
            out.append(sep);
        }
        out.append(parts[i]);
        i = i + 1;
        assert(views.subrange(0, i as int).drop_last() =~= views.subrange(0, i - 1));
    }
    assert(views.subrange(0, parts@.len() as int) =~= views);
    out
}

/// `parts` concatenated, after `head`.
pub fn concat_after(head: &String, parts: &Vec<String>) -> (r: String)
    ensures
        r@ == head@ + spec_concat(spec_string_views(parts@)),
{
    let ghost views = spec_string_views(parts@);
    let mut out = copy_string(head);
    let mut i: usize = 0;
    while i < parts.len()
        invariant
            i <= parts@.len(),
            views == spec_string_views(parts@),
            out@ == head@ + spec_concat(views.subrange(0, i as int)),
        decreases parts@.len() - i,
    {
        out.append(parts[i].as_str());
        i = i + 1;
        assert(views.subrange(0, i as int).drop_last() =~= views.subrange(0, i - 1));
        assert(out@ =~= head@ + spec_concat(views.subrange(0, i as int)));
    }
    assert(views.subrange(0, parts@.len() as int) =~= views);
    out
}

/// `parts` concatenated.
pub open spec fn spec_concat(parts: Seq<Seq<char>>) -> Seq<char>
    decreases parts.len(),
{
    if parts.len() == 0 {
        Seq::empty()
    } else {
        spec_concat(parts.drop_last()) + parts.last()
    }
}

// ---------------------------------------------------------------------------
// Whitespace, case and numbers

/// `char::is_whitespace`: the Unicode `White_Space` characters.
pub open spec fn spec_is_whitespace(c: char) -> bool {
    ||| '\u{9}' <= c <= '\u{d}'
    ||| c == ' '
    ||| c == '\u{85}'
    ||| c == '\u{a0}'
    ||| c == '\u{1680}'
    ||| '\u{2000}' <= c <= '\u{200a}'
    ||| c == '\u{2028}'
    ||| c == '\u{2029}'
    ||| c == '\u{202f}'
    ||| c == '\u{205f}'
    ||| c == '\u{3000}'
}

pub fn is_whitespace(c: char) -> (r: bool)
    ensures
        r == spec_is_whitespace(c),
{
    ('\u{9}' <= c && c <= '\u{d}') || c == ' ' || c == '\u{85}' || c == '\u{a0}' || c
        == '\u{1680}' || ('\u{2000}' <= c && c <= '\u{200a}') || c == '\u{2028}' || c
        == '\u{2029}' || c == '\u{202f}' || c == '\u{205f}' || c == '\u{3000}'
}

/// `s` without leading whitespace.
pub open spec fn spec_trim_start(s: Seq<char>) -> Seq<char>
    decreases s.len(),
{
    if s.len() > 0 && spec_is_whitespace(s[0]) {
        spec_trim_start(s.drop_first())
    } else {
        s
    }
}

/// `s` without trailing whitespace.
pub open spec fn spec_trim_end(s: Seq<char>) -> Seq<char>
    decreases s.len(),
{
    if s.len() > 0 && spec_is_whitespace(s.last()) {
        spec_trim_end(s.drop_last())
    } else {
        s
    }
}

/// `str::trim`: `s` without leading and trailing whitespace.
pub open spec fn spec_trim(s: Seq<char>) -> Seq<char> {
    spec_trim_end(spec_trim_start(s))
}

proof fn lemma_trim_start_suffix(s: Seq<char>, i: int)
    requires
        0 <= i <= s.len(),
        forall|j: int| 0 <= j < i ==> spec_is_whitespace(s[j]),
    ensures
        spec_trim_start(s) == spec_trim_start(s.subrange(i, s.len() as int)),
    decreases i,
{
    if i > 0 {
        lemma_trim_start_suffix(s.drop_first(), i - 1);
        assert(s.drop_first().subrange(i - 1, s.drop_first().len() as int) =~= s.subrange(
            i,
            s.len() as int,
        ));
    } else {
        assert(s.subrange(0, s.len() as int) =~= s);
    }
}

proof fn lemma_trim_end_prefix(s: Seq<char>, i: int)
    requires
        0 <= i <= s.len(),
        forall|j: int| i <= j < s.len() ==> spec_is_whitespace(s[j]),
    ensures
        spec_trim_end(s) == spec_trim_end(s.subrange(0, i)),
    decreases s.len() - i,
{
    if i < s.len() {
        lemma_trim_end_prefix(s.drop_last(), i);
        assert(s.drop_last().subrange(0, i) =~= s.subrange(0, i));
    } else {
        assert(s.subrange(0, i) =~= s);
    }
}

/// The characters of `s` with leading and trailing whitespace removed.
pub fn trim_chars(s: &[char]) -> (r: Vec<char>)
    ensures
        r@ == spec_trim(s@),
{
    let mut start: usize = 0;
    while start < s.len() && is_whitespace(s[start])
        invariant
            start <= s@.len(),
            forall|j: int| 0 <= j < start ==> spec_is_whitespace(s@[j]),
        decreases s@.len() - start,
    {
        start = start + 1;
    }
    proof {
        lemma_trim_start_suffix(s@, start as int);
    }
    let rest = &s[start..s.len()];
    let mut end: usize = rest.len();
    while end > 0 && is_whitespace(rest[end - 1])
        invariant
            end <= rest@.len(),
            forall|j: int| end <= j < rest@.len() ==> spec_is_whitespace(rest@[j]),
        decreases end,
    {
        end = end - 1;
    }
    proof {
        lemma_trim_end_prefix(rest@, end as int);
        let t = rest@.subrange(0, end as int);
        if start < s@.len() {
            assert(!spec_is_whitespace(s@[start as int]));
            assert(spec_trim_start(rest@) == rest@);
        } else {
            assert(rest@ =~= Seq::<char>::empty());
        }
        if end > 0 {
            assert(!spec_is_whitespace(t.last()));
        }
        assert(spec_trim_end(t) == t);
    }
    vstd::slice::slice_to_vec(&rest[0..end])
}

/// ASCII upper-case letters made lower case; other characters kept.
pub open spec fn spec_ascii_lower(c: char) -> char {
    if 'A' <= c <= 'Z' {
        ((c as u32) + 32) as char
    } else {
        c
    }
}

/// `str::to_ascii_lowercase`.
pub open spec fn spec_ascii_lowercase(s: Seq<char>) -> Seq<char> {
    s.map_values(|c: char| spec_ascii_lower(c))
}

pub fn ascii_lowercase(s: &[char]) -> (r: String)
    ensures
        r@ == spec_ascii_lowercase(s@),
{
    let mut out: Vec<char> = Vec::new();
    let mut i: usize = 0;
    while i < s.len()
        invariant
            i <= s@.len(),
            out@ == spec_ascii_lowercase(s@.subrange(0, i as int)),
        decreases s@.len() - i,
    {
        let c = s[i];
        let lower = if 'A' <= c && c <= 'Z' {
            char_from_ascii(((c as u32) + 32) as u8)
        } else {
            c
        };
        out.push(lower);
        i = i + 1;
        assert(out@ =~= spec_ascii_lowercase(s@.subrange(0, i as int)));
    }
    assert(s@.subrange(0, s@.len() as int) =~= s@);
    string_from_chars(out.as_slice())
}

/// The character of an ASCII byte.
pub fn char_from_ascii(b: u8) -> (r: char)
    requires
        b < 128,
    ensures
        r == b as char,
{
    b as char
}

/// Whether `c` is an ASCII decimal digit.
pub open spec fn spec_is_digit(c: char) -> bool {
    '0' <= c <= '9'
}

/// The number that decimal digits spell.
pub open spec fn spec_digits_value(s: Seq<char>) -> nat
    decreases s.len(),
{
    if s.len() == 0 {
        0
    } else {
        spec_digits_value(s.drop_last()) * 10 + ((s.last() as u32) - 48) as nat
    }
}

/// The digits of an unsigned number: the text after an optional `+`.
pub open spec fn spec_unsigned_digits(s: Seq<char>) -> Seq<char> {
    if s.len() > 0 && s[0] == '+' {
        s.drop_first()
    } else {
        s
    }
}

/// Whether every character is a decimal digit.
pub open spec fn spec_all_digits(s: Seq<char>) -> bool {
    forall|i: int| 0 <= i < s.len() ==> spec_is_digit(#[trigger] s[i])
}

/// `str::parse` for an unsigned integer type whose largest value is `max`:
/// an optional `+`, then one or more decimal digits spelling at most `max`.
pub open spec fn spec_parse_unsigned(s: Seq<char>, max: nat) -> Option<nat> {
    let digits = spec_unsigned_digits(s);
    if digits.len() == 0 || !spec_all_digits(digits) || spec_digits_value(digits) > max {
        None
    } else {
        Some(spec_digits_value(digits))
    }
}

proof fn lemma_digits_value_prefix(s: Seq<char>, i: int)
    requires
        0 <= i <= s.len(),
        forall|j: int| 0 <= j < s.len() ==> spec_is_digit(s[j]),
    ensures
        spec_digits_value(s.subrange(0, i)) <= spec_digits_value(s),
    decreases s.len() - i,
{
    if i < s.len() {
        lemma_digits_value_prefix(s.drop_last(), i);
        assert(s.drop_last().subrange(0, i) =~= s.subrange(0, i));
    } else {
        assert(s.subrange(0, i) =~= s);
    }
}

/// `str::parse::<u64>`.
#[verifier::loop_isolation(false)]
pub fn parse_u64(s: &[char]) -> (r: Option<u64>)
    ensures
        match spec_parse_unsigned(s@, u64::MAX as nat) {
            Some(v) => r == Some(v as u64),
            None => r is None,
        },
{
    let start: usize = if s.len() > 0 && s[0] == '+' {
        1
    } else {
        0
    };
    let digits = &s[start..s.len()];
    proof {
        if s@.len() > 0 && s@[0] == '+' {
            assert(digits@ =~= s@.drop_first());
        } else {
            assert(digits@ =~= s@);
        }
        assert(digits@ == spec_unsigned_digits(s@));
    }
    if digits.len() == 0 {
        return None;
    }
    let mut value: u64 = 0;
    let mut i: usize = 0;
    let mut overflow = false;
    while i < digits.len()
        invariant
            i <= digits@.len(),
            forall|j: int| 0 <= j < i ==> spec_is_digit(digits@[j]),
            !overflow ==> value == spec_digits_value(digits@.subrange(0, i as int)),
            overflow ==> spec_digits_value(digits@.subrange(0, i as int)) > u64::MAX,
        decreases digits@.len() - i,
    {
        let c = digits[i];
        if !('0' <= c && c <= '9') {
            assert(!spec_is_digit(digits@[i as int]));
            return None;
        }
        let d = ((c as u32) - 48) as u64;
        let ghost before = digits@.subrange(0, i as int);
        proof {
            assert(digits@.subrange(0, i + 1).drop_last() =~= before);
        }
        if !overflow {
            if value > (u64::MAX - d) / 10 {
                overflow = true;
                assert(value * 10 + d > u64::MAX) by (nonlinear_arith)
                    requires
                        value > (u64::MAX - d) / 10,
                        d <= 9,
                ;
            } else {
                assert(value * 10 + d <= u64::MAX) by (nonlinear_arith)
                    requires
                        value <= (u64::MAX - d) / 10,
                        d <= 9,
                ;
                value = value * 10 + d;
            }
        } else {
            assert(spec_digits_value(before) * 10 + d >= spec_digits_value(before));
        }
        i = i + 1;
    }
    proof {
        assert(digits@.subrange(0, digits@.len() as int) =~= digits@);
    }
    if overflow {
        None
    } else {
        Some(value)
    }
}

/// `str::parse::<u16>`.
pub fn parse_u16(s: &[char]) -> (r: Option<u16>)
    ensures
        match spec_parse_unsigned(s@, u16::MAX as nat) {
            Some(v) => r == Some(v as u16),
            None => r is None,
        },
{
    match parse_u64(s) {
        None => {
            proof {
                let digits = if s@.len() > 0 && s@[0] == '+' {
                    s@.drop_first()
                } else {
                    s@
                };
                if digits.len() > 0 && spec_all_digits(digits) {
                    assert(spec_digits_value(digits) > u64::MAX);
                }
            }
            None
        },
        Some(v) => if v > 0xffff {
            None
        } else {
            Some(v as u16)
        },
    }
}

/// Decimal spelling of `n`, without leading zeros.
pub open spec fn spec_decimal(n: nat) -> Seq<char>
    decreases n,
{
    if n < 10 {
        seq![((n + 48) as u32) as char]
    } else {
        spec_decimal(n / 10).push((((n % 10) + 48) as u32) as char)
    }
}

/// `n` written in decimal.
pub fn decimal_string(n: u64) -> (r: String)
    ensures
        r@ == spec_decimal(n as nat),
    decreases n,
{
    if n < 10 {
        let mut out = String::new();
        string_push(&mut out, char_from_ascii((n + 48) as u8));
        assert(out@ =~= spec_decimal(n as nat));
        out
    } else {
        let mut out = decimal_string(n / 10);
        string_push(&mut out, char_from_ascii(((n % 10) + 48) as u8));
        out
    }
}

// ---------------------------------------------------------------------------
// Finding characters

/// The first index of `c` in `s`, if any.
pub open spec fn spec_find(s: Seq<char>, c: char) -> Option<int> {
    if exists|i: int| 0 <= i < s.len() && s[i] == c {
        Some(choose|i: int| 0 <= i < s.len() && s[i] == c && forall|j: int| 0 <= j < i ==> s[j] != c)
    } else {
        None
    }
}

/// How many times `c` occurs in `s`.
pub open spec fn spec_count(s: Seq<char>, c: char) -> nat
    decreases s.len(),
{
    if s.len() == 0 {
        0
    } else {
        spec_count(s.drop_last(), c) + if s.last() == c {
            1nat
        } else {
            0nat
        }
    }
}

/// The first index of `c` in `s`, if any.
pub fn find_char(s: &[char], c: char) -> (r: Option<usize>)
    ensures
        match spec_find(s@, c) {
            Some(i) => r matches Some(j) && j as int == i,
            None => r is None,
        },
        r matches Some(i) ==> i < s@.len() && s@[i as int] == c,
{
    let mut i: usize = 0;
    while i < s.len()
        invariant
            i <= s@.len(),
            forall|j: int| 0 <= j < i ==> s@[j] != c,
        decreases s@.len() - i,
    {
        if s[i] == c {
            proof {
                let k = choose|k: int|
                    0 <= k < s@.len() && s@[k] == c && forall|j: int| 0 <= j < k ==> s@[j] != c;
                assert(spec_find(s@, c) == Some(k));
                if k < i {
                }
                if k > i {
                }
            }
            return Some(i);
        }
        i = i + 1;
    }
    None
}

/// How many times `c` occurs in `s`.
pub fn count_char(s: &[char], c: char) -> (r: usize)
    ensures
        r == spec_count(s@, c),
{
    let mut n: usize = 0;
    let mut i: usize = 0;
    while i < s.len()
        invariant
            i <= s@.len(),
            n == spec_count(s@.subrange(0, i as int), c),
            n <= i,
        decreases s@.len() - i,
    {
        let ghost before = s@.subrange(0, i as int);
        assert(s@.subrange(0, i + 1).drop_last() =~= before);
        if s[i] == c {
            n = n + 1;
        }
        i = i + 1;
    }
    assert(s@.subrange(0, s@.len() as int) =~= s@);
    n
}


// ---------------------------------------------------------------------------
// ASCII case

/// Equality up to ASCII case.
pub open spec fn spec_eq_ignore_ascii_case(a: Seq<char>, b: Seq<char>) -> bool {
    a.len() == b.len() && forall|i: int|
        0 <= i < a.len() ==> spec_ascii_lower(#[trigger] a[i]) == spec_ascii_lower(b[i])
}

/// `char::to_ascii_lowercase`.
pub fn ascii_lower(c: char) -> (r: char)
    ensures
        r == spec_ascii_lower(c),
{
    if 'A' <= c && c <= 'Z' {
        proof {
            assert(0x41 <= (c as u32) <= 0x5a);
            assert(((c as u32) + 32) as char == spec_ascii_lower(c));
        }
        char_from_ascii((c as u8) + 32)
    } else {
        c
    }
}

/// `eq_ignore_ascii_case` on character sequences.
pub fn eq_ignore_ascii_case(a: &[char], b: &[char]) -> (r: bool)
    ensures
        r == spec_eq_ignore_ascii_case(a@, b@),
{
    if a.len() != b.len() {
        return false;
    }
    let mut i: usize = 0;
    while i < a.len()
        invariant
            a@.len() == b@.len(),
            i <= a@.len(),
            forall|j: int| 0 <= j < i ==> spec_ascii_lower(#[trigger] a@[j]) == spec_ascii_lower(b@[j]),
        decreases a@.len() - i,
    {
        if ascii_lower(a[i]) != ascii_lower(b[i]) {
            return false;
        }
        i = i + 1;
    }
    true
}

} // verus!
