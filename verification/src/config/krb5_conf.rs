//! The `krb5.conf` file: `[libdefaults]`, `[realms]` and `[domain_realm]`
//! sections, comments after `#` or `;`, and realm blocks in braces.

use vstd::prelude::*;

use super::{
    parse_boolean, parse_duration, parse_supported_enctype_ids, spec_parse_boolean,
    spec_parse_duration, spec_split, spec_supported_enctype_ids, split_chars, ConfigFault,
    DurationFault, Error,
};
use crate::text::{
    count_char, find_char, spec_count, spec_find, ascii_lowercase, is_whitespace, parse_u64, spec_all_digits, spec_ascii_lowercase,
    spec_digits_value, spec_is_digit, spec_is_whitespace, spec_parse_unsigned, spec_trim,
    spec_string_views, spec_trim_end, spec_unsigned_digits, str_chars, str_eq, string_from_chars,
    trim_chars,
};

verus! {

// ---------------------------------------------------------------------------
// Lines

/// How many characters come before the first comment character (`#` or
/// `;`).
pub open spec fn spec_comment_at(s: Seq<char>) -> nat
    decreases s.len(),
{
    if s.len() == 0 || s[0] == '#' || s[0] == ';' {
        0
    } else {
        1 + spec_comment_at(s.drop_first())
    }
}

/// A raw line without its comment and surrounding whitespace.
pub open spec fn spec_clean(raw: Seq<char>) -> Seq<char> {
    spec_trim(raw.subrange(0, spec_comment_at(raw) as int))
}

proof fn lemma_comment_at(s: Seq<char>, k: int)
    requires
        0 <= k <= s.len(),
        forall|j: int| 0 <= j < k ==> s[j] != '#' && s[j] != ';',
        k < s.len() ==> s[k] == '#' || s[k] == ';',
    ensures
        spec_comment_at(s) == k,
    decreases k,
{
    if k > 0 {
        assert forall|j: int| 0 <= j < k - 1 implies s.drop_first()[j] != '#' && s.drop_first()[j]
            != ';' by {
            assert(s.drop_first()[j] == s[j + 1]);
        }
        lemma_comment_at(s.drop_first(), k - 1);
    }
}

pub(crate) fn clean_line(raw: &[char]) -> (r: Vec<char>)
    ensures
        r@ == spec_clean(raw@),
{
    let mut k: usize = 0;
    while k < raw.len() && raw[k] != '#' && raw[k] != ';'
        invariant
            k <= raw@.len(),
            forall|j: int| 0 <= j < k ==> raw@[j] != '#' && raw@[j] != ';',
        decreases raw@.len() - k,
    {
        k = k + 1;
    }
    proof {
        lemma_comment_at(raw@, k as int);
    }
    trim_chars(&raw[0..k])
}

/// A line of a section: its one-based number and its cleaned text.
pub struct LineModel {
    pub number: nat,
    pub text: Seq<char>,
}

pub(crate) struct ConfLine {
    number: usize,
    text: Vec<char>,
}

pub(crate) fn new_line(number: usize, text: Vec<char>) -> (r: ConfLine)
    ensures
        r@ == (LineModel { number: number as nat, text: text@ }),
{
    ConfLine { number, text }
}

impl View for ConfLine {
    type V = LineModel;

    closed spec fn view(&self) -> LineModel {
        LineModel { number: self.number as nat, text: self.text@ }
    }
}

/// `key = value` of a line, both trimmed, split at the first `=`; a line
/// without `=` is an `InvalidLine` of `section`.
pub open spec fn spec_assignment(line: LineModel, section: Seq<char>) -> Result<
    (Seq<char>, Seq<char>),
    ConfigFault,
> {
    match spec_find(line.text, '=') {
        None => Err(ConfigFault::InvalidLine { section, line: line.number, text: line.text }),
        Some(p) => Ok(
            (
                spec_trim(line.text.subrange(0, p)),
                spec_trim(line.text.subrange(p + 1, line.text.len() as int)),
            ),
        ),
    }
}

pub(crate) fn assignment(line: &ConfLine, section: &'static str) -> (r: Result<(Vec<char>, Vec<char>), Error>)
    ensures
        match spec_assignment(line@, section@) {
            Ok((k, v)) => r matches Ok((a, b)) && a@ == k && b@ == v,
            Err(f) => r matches Err(e) && e@ == f,
        },
        r matches Ok((a, b)) ==> b@.len() <= line@.text.len(),
{
    let text = line.text.as_slice();
    match find_char(text, '=') {
        None => Err(
            Error::InvalidLine {
                section,
                line: line.number,
                text: string_from_chars(line.text.as_slice()),
            },
        ),
        Some(p) => {
            let n = text.len();
            assert(p < n);
            let key = trim_chars(&text[0..p]);
            let value = trim_chars(&text[p + 1..n]);
            proof {
                lemma_trim_len(text@, p as int);
            }
            Ok((key, value))
        },
    }
}

/// Whether `s` holds `v4_`.
pub open spec fn spec_has_v4(s: Seq<char>) -> bool {
    exists|i: int| 0 <= i && i + 3 <= s.len() && #[trigger] s[i] == 'v' && s[i + 1] == '4' && s[i + 2] == '_'
}

fn has_v4(s: &[char]) -> (r: bool)
    ensures
        r == spec_has_v4(s@),
{
    let mut i: usize = 0;
    while s.len() >= 3 && i <= s.len() - 3
        invariant
            i <= s@.len(),
            forall|j: int|
                0 <= j < i && j + 3 <= s@.len() ==> !(#[trigger] s@[j] == 'v' && s@[j + 1] == '4'
                    && s@[j + 2] == '_'),
        decreases s@.len() - i,
    {
        if s[i] == 'v' && s[i + 1] == '4' && s[i + 2] == '_' {
            return true;
        }
        i = i + 1;
    }
    false
}

/// How many more `{` than `}` a text holds.
pub open spec fn spec_brace_delta(s: Seq<char>) -> int {
    spec_count(s, '{') - spec_count(s, '}')
}

fn brace_delta(s: &[char]) -> (r: i128)
    ensures
        r == spec_brace_delta(s@),
        -(s@.len() as int) <= r <= s@.len(),
{
    let open = count_char(s, '{');
    let close = count_char(s, '}');
    proof {
        lemma_count_le(s@, '{');
        lemma_count_le(s@, '}');
    }
    (open as i128) - (close as i128)
}

proof fn lemma_count_le(s: Seq<char>, c: char)
    ensures
        spec_count(s, c) <= s.len(),
    decreases s.len(),
{
    if s.len() > 0 {
        lemma_count_le(s.drop_last(), c);
    }
}

/// The words of `s`: its maximal runs of non-whitespace characters, as
/// `str::split_whitespace` gives them. The state after reading `s`: the
/// finished words and the word being read.
pub open spec fn spec_words_state(s: Seq<char>) -> (Seq<Seq<char>>, Seq<char>)
    decreases s.len(),
{
    if s.len() == 0 {
        (Seq::empty(), Seq::empty())
    } else {
        let (done, cur) = spec_words_state(s.drop_last());
        if spec_is_whitespace(s.last()) {
            if cur.len() > 0 {
                (done.push(cur), Seq::empty())
            } else {
                (done, Seq::empty())
            }
        } else {
            (done, cur.push(s.last()))
        }
    }
}

/// `str::split_whitespace`.
pub open spec fn spec_words(s: Seq<char>) -> Seq<Seq<char>> {
    let (done, cur) = spec_words_state(s);
    if cur.len() > 0 {
        done.push(cur)
    } else {
        done
    }
}

fn words(s: &[char]) -> (r: Vec<String>)
    ensures
        r@.map_values(|w: String| w@) == spec_words(s@),
{
    let mut done: Vec<String> = Vec::new();
    let mut cur: Vec<char> = Vec::new();
    let mut i: usize = 0;
    while i < s.len()
        invariant
            i <= s@.len(),
            (done@.map_values(|w: String| w@), cur@) == spec_words_state(s@.subrange(0, i as int)),
        decreases s@.len() - i,
    {
        let ghost before = done@.map_values(|w: String| w@);
        assert(s@.subrange(0, i + 1).drop_last() =~= s@.subrange(0, i as int));
        if is_whitespace(s[i]) {
            if cur.len() > 0 {
                let w = string_from_chars(cur.as_slice());
                done.push(w);
                assert(done@.map_values(|w: String| w@) =~= before.push(cur@));
            }
            cur = Vec::new();
        } else {
            cur.push(s[i]);
        }
        i = i + 1;
    }
    assert(s@.subrange(0, s@.len() as int) =~= s@);
    if cur.len() > 0 {
        let ghost before = done@.map_values(|w: String| w@);
        let w = string_from_chars(cur.as_slice());
        done.push(w);
        assert(done@.map_values(|w: String| w@) =~= before.push(cur@));
    }
    done
}

// ---------------------------------------------------------------------------
// Numbers

/// `str::parse::<i32>`: an optional sign, then one or more decimal digits
/// spelling a value in range.
pub open spec fn spec_parse_i32(s: Seq<char>) -> Option<i32> {
    if s.len() > 0 && s[0] == '-' {
        let d = s.drop_first();
        if d.len() == 0 || !spec_all_digits(d) || spec_digits_value(d) > 0x8000_0000 {
            None
        } else {
            Some((0 - spec_digits_value(d)) as i32)
        }
    } else {
        match spec_parse_unsigned(s, i32::MAX as nat) {
            Some(v) => Some(v as i32),
            None => None,
        }
    }
}

fn parse_i32(s: &[char]) -> (r: Option<i32>)
    ensures
        r == spec_parse_i32(s@),
{
    if s.len() > 0 && s[0] == '-' {
        let d = &s[1..s.len()];
        assert(d@ =~= s@.drop_first());
        if d.len() > 0 && d[0] == '+' {
            assert(!spec_is_digit(d@[0]));
            return None;
        }
        assert(spec_unsigned_digits(d@) == d@);
        match parse_u64(d) {
            None => {
                proof {
                    if d@.len() > 0 && spec_all_digits(d@) {
                        assert(spec_digits_value(d@) > u64::MAX);
                    }
                }
                None
            },
            Some(v) => if v > 0x8000_0000 {
                None
            } else {
                let neg: i64 = 0 - (v as i64);
                Some(neg as i32)
            },
        }
    } else {
        match parse_u64(s) {
            None => {
                proof {
                    let digits = spec_unsigned_digits(s@);
                    if digits.len() > 0 && spec_all_digits(digits) {
                        assert(spec_digits_value(digits) > u64::MAX);
                    }
                }
                None
            },
            Some(v) => if v > 0x7fff_ffff {
                None
            } else {
                Some(v as i32)
            },
        }
    }
}

/// The value of a hexadecimal digit.
pub open spec fn spec_hex_digit(c: char) -> Option<nat> {
    if '0' <= c <= '9' {
        Some(((c as u32) - 48) as nat)
    } else if 'a' <= c <= 'f' {
        Some(((c as u32) - 87) as nat)
    } else if 'A' <= c <= 'F' {
        Some(((c as u32) - 55) as nat)
    } else {
        None
    }
}

/// The number that hexadecimal digits spell, when they all are digits.
pub open spec fn spec_hex_value(s: Seq<char>) -> Option<nat>
    decreases s.len(),
{
    if s.len() == 0 {
        Some(0)
    } else {
        match (spec_hex_value(s.drop_last()), spec_hex_digit(s.last())) {
            (Some(v), Some(d)) => Some(v * 16 + d),
            _ => None,
        }
    }
}

/// `u32::from_str_radix(s, 16)`: an optional `+`, then one or more
/// hexadecimal digits spelling at most `u32::MAX`.
pub open spec fn spec_parse_hex_u32(s: Seq<char>) -> Option<u32> {
    let digits = spec_unsigned_digits(s);
    if digits.len() == 0 {
        None
    } else {
        match spec_hex_value(digits) {
            Some(v) => if v <= u32::MAX {
                Some(v as u32)
            } else {
                None
            },
            None => None,
        }
    }
}

proof fn lemma_hex_value_grows(s: Seq<char>, i: int)
    requires
        0 <= i <= s.len(),
        spec_hex_value(s) is Some,
    ensures
        spec_hex_value(s.subrange(0, i)) is Some,
        spec_hex_value(s.subrange(0, i))->Some_0 <= spec_hex_value(s)->Some_0,
    decreases s.len() - i,
{
    if i < s.len() {
        lemma_hex_value_grows(s.drop_last(), i);
        assert(s.drop_last().subrange(0, i) =~= s.subrange(0, i));
    } else {
        assert(s.subrange(0, i) =~= s);
    }
}

#[verifier::loop_isolation(false)]
fn parse_hex_u32(s: &[char]) -> (r: Option<u32>)
    ensures
        r == spec_parse_hex_u32(s@),
{
    let start: usize = if s.len() > 0 && s[0] == '+' {
        1
    } else {
        0
    };
    let digits = &s[start..s.len()];
    proof {
        if s@.len() > 0 && s@[0] == '+' {
            assert(digits@ =~= s@.drop_first());
        } else {
            assert(digits@ =~= s@);
        }
    }
    if digits.len() == 0 {
        return None;
    }
    let mut value: u64 = 0;
    let mut i: usize = 0;
    while i < digits.len()
        invariant
            i <= digits@.len(),
            spec_hex_value(digits@.subrange(0, i as int)) == Some(value as nat),
            value <= u32::MAX,
        decreases digits@.len() - i,
    {
        let c = digits[i];
        let d: u64 = if '0' <= c && c <= '9' {
            ((c as u32) - 48) as u64
        } else if 'a' <= c && c <= 'f' {
            ((c as u32) - 87) as u64
        } else if 'A' <= c && c <= 'F' {
            ((c as u32) - 55) as u64
        } else {
            proof {
                assert(digits@.subrange(0, i + 1).drop_last() =~= digits@.subrange(0, i as int));
                assert(spec_hex_value(digits@.subrange(0, i + 1)) is None);
                if spec_hex_value(digits@) is Some {
                    lemma_hex_value_grows(digits@, i + 1);
                }
            }
            return None;
        };
        assert(digits@.subrange(0, i + 1).drop_last() =~= digits@.subrange(0, i as int));
        let next = value * 16 + d;
        if next > 0xffff_ffff {
            proof {
                if spec_hex_value(digits@) is Some {
                    lemma_hex_value_grows(digits@, i + 1);
                }
            }
            return None;
        }
        value = next;
        i = i + 1;
    }
    assert(digits@.subrange(0, digits@.len() as int) =~= digits@);
    Some(value as u32)
}

/// `s` without every leading `0x`.
pub open spec fn spec_strip_hex_prefix(s: Seq<char>) -> Seq<char>
    decreases s.len(),
{
    if s.len() >= 2 && s[0] == '0' && s[1] == 'x' {
        spec_strip_hex_prefix(s.subrange(2, s.len() as int))
    } else {
        s
    }
}

fn strip_hex_prefix(s: &[char]) -> (r: &[char])
    ensures
        r@ == spec_strip_hex_prefix(s@),
    decreases s@.len(),
{
    if s.len() >= 2 && s[0] == '0' && s[1] == 'x' {
        let rest = &s[2..s.len()];
        strip_hex_prefix(rest)
    } else {
        s
    }
}

/// Whether `c` separates the numbers of a list: `,`, space or tab.
pub open spec fn spec_list_separator(c: char) -> bool {
    c == ',' || c == ' ' || c == '\t'
}

/// A list split at every separator, empty pieces kept.
pub open spec fn spec_list_pieces(s: Seq<char>) -> Seq<Seq<char>>
    decreases s.len(),
{
    if s.len() == 0 {
        seq![Seq::empty()]
    } else {
        let parts = spec_list_pieces(s.drop_last());
        if spec_list_separator(s.last()) {
            parts.push(Seq::empty())
        } else {
            parts.update(parts.len() - 1, parts.last().push(s.last()))
        }
    }
}

proof fn lemma_list_pieces_nonempty(s: Seq<char>)
    ensures
        spec_list_pieces(s).len() >= 1,
    decreases s.len(),
{
    if s.len() > 0 {
        lemma_list_pieces_nonempty(s.drop_last());
    }
}

fn list_pieces(s: &[char]) -> (r: Vec<Vec<char>>)
    ensures
        r@.map_values(|p: Vec<char>| p@) == spec_list_pieces(s@),
{
    let mut parts: Vec<Vec<char>> = Vec::new();
    let mut current: Vec<char> = Vec::new();
    let mut i: usize = 0;
    proof {
        assert(s@.subrange(0, 0) =~= Seq::<char>::empty());
        assert(parts@.map_values(|p: Vec<char>| p@) + seq![current@] =~= spec_list_pieces(
            s@.subrange(0, 0),
        ));
    }
    while i < s.len()
        invariant
            i <= s@.len(),
            parts@.map_values(|p: Vec<char>| p@) + seq![current@] == spec_list_pieces(
                s@.subrange(0, i as int),
            ),
        decreases s@.len() - i,
    {
        let ghost before = parts@.map_values(|p: Vec<char>| p@);
        let ghost cur = current@;
        assert(s@.subrange(0, i + 1).drop_last() =~= s@.subrange(0, i as int));
        let c = s[i];
        if c == ',' || c == ' ' || c == '\t' {
            let done = current;
            parts.push(done);
            current = Vec::new();
            assert(parts@.map_values(|p: Vec<char>| p@) =~= before.push(cur));
            assert(parts@.map_values(|p: Vec<char>| p@) + seq![current@] =~= (before + seq![
                cur,
            ]).push(Seq::<char>::empty()));
        } else {
            current.push(c);
            assert(parts@.map_values(|p: Vec<char>| p@) + seq![current@] =~= (before + seq![
                cur,
            ]).update((before + seq![cur]).len() - 1, cur.push(s@[i as int])));
        }
        i = i + 1;
    }
    let ghost before = parts@.map_values(|p: Vec<char>| p@);
    parts.push(current);
    assert(s@.subrange(0, s@.len() as int) =~= s@);
    assert(parts@.map_values(|p: Vec<char>| p@) =~= before + seq![current@]);
    parts
}

/// The numbers of the non-blank pieces, in order; the first piece that is
/// no `i32` is an `InvalidInteger` of `key` on line `line`.
pub open spec fn spec_i32_pieces(pieces: Seq<Seq<char>>, line: nat, key: Seq<char>) -> Result<
    Seq<i32>,
    ConfigFault,
>
    decreases pieces.len(),
{
    if pieces.len() == 0 {
        Ok(Seq::empty())
    } else {
        match spec_i32_pieces(pieces.drop_last(), line, key) {
            Err(f) => Err(f),
            Ok(v) => {
                let t = spec_trim(pieces.last());
                if t.len() == 0 {
                    Ok(v)
                } else {
                    match spec_parse_i32(t) {
                        Some(x) => Ok(v.push(x)),
                        None => Err(ConfigFault::InvalidInteger { line, key, value: t }),
                    }
                }
            },
        }
    }
}

/// A list of `i32` separated by commas, spaces or tabs.
pub open spec fn spec_i32_list(value: Seq<char>, line: nat, key: Seq<char>) -> Result<
    Seq<i32>,
    ConfigFault,
> {
    spec_i32_pieces(spec_list_pieces(value), line, key)
}

fn invalid_integer(value: &[char], line: usize, key: &[char]) -> (e: Error)
    ensures
        e@ == (ConfigFault::InvalidInteger { line: line as nat, key: key@, value: value@ }),
{
    Error::InvalidInteger {
        line,
        key: string_from_chars(key),
        value: string_from_chars(value),
    }
}

fn parse_i32_list(value: &[char], line: usize, key: &[char]) -> (r: Result<Vec<i32>, Error>)
    ensures
        match spec_i32_list(value@, line as nat, key@) {
            Ok(v) => r matches Ok(x) && x@ == v,
            Err(f) => r matches Err(e) && e@ == f,
        },
{
    let pieces = list_pieces(value);
    let ghost ps = pieces@.map_values(|p: Vec<char>| p@);
    let mut out: Vec<i32> = Vec::new();
    let mut i: usize = 0;
    while i < pieces.len()
        invariant
            i <= pieces@.len(),
            ps == pieces@.map_values(|p: Vec<char>| p@),
            ps == spec_list_pieces(value@),
            spec_i32_pieces(ps.subrange(0, i as int), line as nat, key@) == Ok::<
                Seq<i32>,
                ConfigFault,
            >(out@),
        decreases pieces@.len() - i,
    {
        assert(ps.subrange(0, i + 1).drop_last() =~= ps.subrange(0, i as int));
        assert(ps.subrange(0, i + 1).last() == pieces@[i as int]@);
        let t = trim_chars(pieces[i].as_slice());
        if t.len() > 0 {
            match parse_i32(t.as_slice()) {
                Some(x) => out.push(x),
                None => {
                    proof {
                        assert(spec_i32_pieces(ps.subrange(0, i + 1), line as nat, key@) == Err::<
                            Seq<i32>,
                            ConfigFault,
                        >(ConfigFault::InvalidInteger { line: line as nat, key: key@, value: t@ }));
                        lemma_i32_pieces_error_stays(ps, i as int + 1, line as nat, key@);
                    }
                    return Err(invalid_integer(t.as_slice(), line, key));
                },
            }
        }
        i = i + 1;
    }
    assert(ps.subrange(0, pieces@.len() as int) =~= ps);
    Ok(out)
}

proof fn lemma_i32_pieces_error_stays(ps: Seq<Seq<char>>, k: int, line: nat, key: Seq<char>)
    requires
        0 <= k <= ps.len(),
        spec_i32_pieces(ps.subrange(0, k), line, key) is Err,
    ensures
        spec_i32_pieces(ps, line, key) == spec_i32_pieces(ps.subrange(0, k), line, key),
    decreases ps.len() - k,
{
    if k < ps.len() {
        assert(ps.drop_last().subrange(0, k) =~= ps.subrange(0, k));
        lemma_i32_pieces_error_stays(ps.drop_last(), k, line, key);
    } else {
        assert(ps.subrange(0, k) =~= ps);
    }
}

/// `u32::from_str_radix` of a value with every leading `0x` removed; a
/// failure is an `InvalidInteger` of the stripped value.
pub open spec fn spec_hex_option(value: Seq<char>, line: nat, key: Seq<char>) -> Result<u32, ConfigFault> {
    let v = spec_strip_hex_prefix(spec_trim(value));
    match spec_parse_hex_u32(v) {
        Some(x) => Ok(x),
        None => Err(ConfigFault::InvalidInteger { line, key, value: v }),
    }
}

fn hex_option(value: &[char], line: usize, key: &[char]) -> (r: Result<u32, Error>)
    ensures
        match spec_hex_option(value@, line as nat, key@) {
            Ok(v) => r == Ok::<u32, Error>(v),
            Err(f) => r matches Err(e) && e@ == f,
        },
{
    let t = trim_chars(value);
    let v = strip_hex_prefix(t.as_slice());
    match parse_hex_u32(v) {
        Some(x) => Ok(x),
        None => Err(invalid_integer(v, line, key)),
    }
}

/// `str::parse::<i32>` of a value; a failure is an `InvalidInteger`.
pub open spec fn spec_i32_option(value: Seq<char>, line: nat, key: Seq<char>) -> Result<i32, ConfigFault> {
    match spec_parse_i32(value) {
        Some(x) => Ok(x),
        None => Err(ConfigFault::InvalidInteger { line, key, value }),
    }
}

fn i32_option(value: &[char], line: usize, key: &[char]) -> (r: Result<i32, Error>)
    ensures
        match spec_i32_option(value@, line as nat, key@) {
            Ok(v) => r == Ok::<i32, Error>(v),
            Err(f) => r matches Err(e) && e@ == f,
        },
{
    match parse_i32(value) {
        Some(x) => Ok(x),
        None => Err(invalid_integer(value, line, key)),
    }
}

// ---------------------------------------------------------------------------
// Realms

/// The message of a refused `v4_` directive.
pub open spec fn spec_v4_message() -> Seq<char> {
    "v4 configurations are not supported"@
}

fn v4_error() -> (e: Error)
    ensures
        e@ == ConfigFault::UnsupportedDirective(spec_v4_message()),
{
    Error::UnsupportedDirective("v4 configurations are not supported".to_owned())
}

/// One `[realms]` entry.
#[derive(Clone, Debug, Eq, PartialEq)]
pub struct Realm {
    /// Realm name.
    pub realm: String,
    /// Administrative server hosts.
    pub admin_server: Vec<String>,
    /// Default DNS domain.
    pub default_domain: String,
    /// KDC hosts.
    pub kdc: Vec<String>,
    /// Password-change server hosts.
    pub kpasswd_server: Vec<String>,
    /// Master KDC hosts.
    pub master_kdc: Vec<String>,
}

/// A realm entry as plain values.
pub struct RealmModel {
    pub realm: Seq<char>,
    pub admin_server: Seq<Seq<char>>,
    pub default_domain: Seq<char>,
    pub kdc: Seq<Seq<char>>,
    pub kpasswd_server: Seq<Seq<char>>,
    pub master_kdc: Seq<Seq<char>>,
}

impl View for Realm {
    type V = RealmModel;

    open spec fn view(&self) -> RealmModel {
        RealmModel {
            realm: self.realm@,
            admin_server: spec_string_views(self.admin_server@),
            default_domain: self.default_domain@,
            kdc: spec_string_views(self.kdc@),
            kpasswd_server: spec_string_views(self.kpasswd_server@),
            master_kdc: spec_string_views(self.master_kdc@),
        }
    }
}

/// `s` without its trailing `*`s.
pub open spec fn spec_trim_end_stars(s: Seq<char>) -> Seq<char>
    decreases s.len(),
{
    if s.len() > 0 && s.last() == '*' {
        spec_trim_end_stars(s.drop_last())
    } else {
        s
    }
}

/// A KDC value with port 88 added to a host that has no `:`; a trailing
/// `*` (the final-value mark) is kept at the end.
pub open spec fn spec_with_kdc_port(value: Seq<char>) -> Seq<char> {
    let t = spec_trim(value);
    let final_mark = t.len() > 0 && t.last() == '*';
    let host = spec_trim(spec_trim_end_stars(t));
    let base = if spec_count(host, ':') > 0 {
        host
    } else {
        host + ":88"@
    };
    if final_mark {
        base.push('*')
    } else {
        base
    }
}

fn trim_end_stars(s: &[char]) -> (r: &[char])
    ensures
        r@ == spec_trim_end_stars(s@),
    decreases s@.len(),
{
    if s.len() > 0 && s[s.len() - 1] == '*' {
        let rest = &s[0..s.len() - 1];
        assert(rest@ =~= s@.drop_last());
        trim_end_stars(rest)
    } else {
        s
    }
}

pub(crate) fn extend_chars(out: &mut Vec<char>, s: &str)
    ensures
        final(out)@ == old(out)@ + s@,
{
    let chars = str_chars(s);
    let mut i: usize = 0;
    while i < chars.len()
        invariant
            i <= chars@.len(),
            chars@ == s@,
            out@ == old(out)@ + chars@.subrange(0, i as int),
        decreases chars@.len() - i,
    {
        out.push(chars[i]);
        i = i + 1;
        assert(out@ =~= old(out)@ + chars@.subrange(0, i as int));
    }
    assert(chars@.subrange(0, chars@.len() as int) =~= chars@);
}

fn with_kdc_port(value: &[char]) -> (r: Vec<char>)
    ensures
        r@ == spec_with_kdc_port(value@),
{
    let t = trim_chars(value);
    let final_mark = t.len() > 0 && t[t.len() - 1] == '*';
    let host = trim_chars(trim_end_stars(t.as_slice()));
    let mut out = host.clone();
    assert(out@ == host@);
    if count_char(host.as_slice(), ':') == 0 {
        extend_chars(&mut out, ":88");
    }
    if final_mark {
        out.push('*');
    }
    out
}

/// Appending a value to a list that a value ending in `*` closed: once
/// closed, later values are dropped.
pub open spec fn spec_append_until_final(values: Seq<Seq<char>>, closed: bool, value: Seq<char>) -> (
    Seq<Seq<char>>,
    bool,
) {
    if closed {
        (values, true)
    } else {
        let v = spec_trim(value);
        if v.len() > 0 && v.last() == '*' {
            (values.push(spec_trim_end(v.drop_last())), true)
        } else {
            (values.push(v), false)
        }
    }
}

fn trim_end_chars(s: &[char]) -> (r: Vec<char>)
    ensures
        r@ == spec_trim_end(s@),
    decreases s@.len(),
{
    if s.len() > 0 && is_whitespace(s[s.len() - 1]) {
        let rest = &s[0..s.len() - 1];
        assert(rest@ =~= s@.drop_last());
        trim_end_chars(rest)
    } else {
        vstd::slice::slice_to_vec(s)
    }
}

fn append_until_final(values: &mut Vec<String>, closed: &mut bool, value: &[char])
    ensures
        (spec_string_views(final(values)@), *final(closed)) == spec_append_until_final(
            spec_string_views(old(values)@),
            *old(closed),
            value@,
        ),
{
    if *closed {
        return;
    }
    let ghost before = spec_string_views(values@);
    let v = trim_chars(value);
    if v.len() > 0 && v[v.len() - 1] == '*' {
        let head = &v.as_slice()[0..v.len() - 1];
        assert(head@ =~= v@.drop_last());
        let t = trim_end_chars(head);
        values.push(string_from_chars(t.as_slice()));
        *closed = true;
    } else {
        values.push(string_from_chars(v.as_slice()));
    }
    assert(spec_string_views(values@) =~= before.push(spec_string_views(values@).last()));
}

/// The host of a server value: the text before its first `:`.
pub open spec fn spec_host_of(a: Seq<char>) -> Seq<char> {
    match spec_find(a, ':') {
        Some(p) => a.subrange(0, p),
        None => a,
    }
}

/// The password-change servers derived from the admin servers: each host
/// with port 464.
pub open spec fn spec_kpasswd_from_admin(admin: Seq<Seq<char>>) -> Seq<Seq<char>> {
    admin.map_values(|a: Seq<char>| spec_host_of(a) + ":464"@)
}

/// A realm being read, with the final-value marks of its lists.
pub struct RealmState {
    pub realm: RealmModel,
    pub admin_final: bool,
    pub kdc_final: bool,
    pub kpasswd_final: bool,
    pub master_final: bool,
}

/// One line of a realm block.
pub open spec fn spec_realm_step(st: RealmState, line: LineModel) -> Result<RealmState, ConfigFault> {
    match spec_assignment(line, "realms"@) {
        Err(f) => Err(f),
        Ok((key, value)) => {
            let k = spec_ascii_lowercase(key);
            let r = st.realm;
            if spec_has_v4(k) {
                Err(ConfigFault::UnsupportedDirective(spec_v4_message()))
            } else if k == "admin_server"@ {
                let (l, c) = spec_append_until_final(r.admin_server, st.admin_final, value);
                Ok(RealmState { realm: RealmModel { admin_server: l, ..r }, admin_final: c, ..st })
            } else if k == "default_domain"@ {
                Ok(RealmState { realm: RealmModel { default_domain: value, ..r }, ..st })
            } else if k == "kdc"@ {
                let (l, c) = spec_append_until_final(r.kdc, st.kdc_final, spec_with_kdc_port(value));
                Ok(RealmState { realm: RealmModel { kdc: l, ..r }, kdc_final: c, ..st })
            } else if k == "kpasswd_server"@ {
                let (l, c) = spec_append_until_final(r.kpasswd_server, st.kpasswd_final, value);
                Ok(RealmState { realm: RealmModel { kpasswd_server: l, ..r }, kpasswd_final: c, ..st })
            } else if k == "master_kdc"@ {
                let (l, c) = spec_append_until_final(r.master_kdc, st.master_final, value);
                Ok(RealmState { realm: RealmModel { master_kdc: l, ..r }, master_final: c, ..st })
            } else {
                Ok(st)
            }
        },
    }
}

/// The lines of a realm block read in order.
pub open spec fn spec_realm_lines(name: Seq<char>, lines: Seq<LineModel>) -> Result<RealmState, ConfigFault>
    decreases lines.len(),
{
    if lines.len() == 0 {
        Ok(
            RealmState {
                realm: RealmModel {
                    realm: name,
                    admin_server: Seq::empty(),
                    default_domain: Seq::empty(),
                    kdc: Seq::empty(),
                    kpasswd_server: Seq::empty(),
                    master_kdc: Seq::empty(),
                },
                admin_final: false,
                kdc_final: false,
                kpasswd_final: false,
                master_final: false,
            },
        )
    } else {
        match spec_realm_lines(name, lines.drop_last()) {
            Err(f) => Err(f),
            Ok(st) => spec_realm_step(st, lines.last()),
        }
    }
}

/// A realm entry from the lines of its block; with no password-change
/// server, each admin server's host on port 464 serves.
pub open spec fn spec_parse_realm(name: Seq<char>, lines: Seq<LineModel>) -> Result<RealmModel, ConfigFault> {
    match spec_realm_lines(name, lines) {
        Err(f) => Err(f),
        Ok(st) => if st.realm.kpasswd_server.len() == 0 {
            Ok(RealmModel { kpasswd_server: spec_kpasswd_from_admin(st.realm.admin_server), ..st.realm })
        } else {
            Ok(st.realm)
        },
    }
}

struct RealmBuilder {
    realm: Realm,
    admin_final: bool,
    kdc_final: bool,
    kpasswd_final: bool,
    master_final: bool,
}

impl View for RealmBuilder {
    type V = RealmState;

    closed spec fn view(&self) -> RealmState {
        RealmState {
            realm: self.realm@,
            admin_final: self.admin_final,
            kdc_final: self.kdc_final,
            kpasswd_final: self.kpasswd_final,
            master_final: self.master_final,
        }
    }
}

pub(crate) fn lowercase_chars(s: &[char]) -> (r: Vec<char>)
    ensures
        r@ == spec_ascii_lowercase(s@),
{
    let l = ascii_lowercase(s);
    str_chars(l.as_str())
}

pub(crate) fn chars_eq(a: &[char], b: &str) -> (r: bool)
    ensures
        r == (a@ == b@),
{
    let s = string_from_chars(a);
    str_eq(s.as_str(), b)
}

#[verifier::spinoff_prover]
#[verifier::rlimit(40)]
fn realm_step(b: &mut RealmBuilder, line: &ConfLine) -> (r: Result<(), Error>)
    ensures
        match spec_realm_step(old(b)@, line@) {
            Ok(st) => r is Ok && final(b)@ == st,
            Err(f) => r matches Err(e) && e@ == f,
        },
{
    let (key, value) = match assignment(line, "realms") {
        Ok(kv) => kv,
        Err(e) => return Err(e),
    };
    let k = lowercase_chars(key.as_slice());
    if has_v4(k.as_slice()) {
        return Err(v4_error());
    }
    let ghost r0 = b.realm@;
    if chars_eq(k.as_slice(), "admin_server") {
        append_until_final(&mut b.realm.admin_server, &mut b.admin_final, value.as_slice());
    } else if chars_eq(k.as_slice(), "default_domain") {
        b.realm.default_domain = string_from_chars(value.as_slice());
    } else if chars_eq(k.as_slice(), "kdc") {
        let v = with_kdc_port(value.as_slice());
        append_until_final(&mut b.realm.kdc, &mut b.kdc_final, v.as_slice());
    } else if chars_eq(k.as_slice(), "kpasswd_server") {
        append_until_final(&mut b.realm.kpasswd_server, &mut b.kpasswd_final, value.as_slice());
    } else if chars_eq(k.as_slice(), "master_kdc") {
        append_until_final(&mut b.realm.master_kdc, &mut b.master_final, value.as_slice());
    }
    Ok(())
}

#[verifier::spinoff_prover]
#[verifier::rlimit(60)]
fn kpasswd_from_admin(admin: &Vec<String>) -> (r: Vec<String>)
    ensures
        spec_string_views(r@) == spec_kpasswd_from_admin(spec_string_views(admin@)),
{
    let ghost views = spec_string_views(admin@);
    let mut out: Vec<String> = Vec::new();
    let mut i: usize = 0;
    while i < admin.len()
        invariant
            i <= admin@.len(),
            views == spec_string_views(admin@),
            spec_string_views(out@) == spec_kpasswd_from_admin(views).subrange(0, i as int),
        decreases admin@.len() - i,
    {
        let a = str_chars(admin[i].as_str());
        let mut host = match find_char(a.as_slice(), ':') {
            Some(p) => vstd::slice::slice_to_vec(&a.as_slice()[0..p]),
            None => a.clone(),
        };
        assert(host@ == spec_host_of(views[i as int]));
        extend_chars(&mut host, ":464");
        let ghost before = spec_string_views(out@);
        out.push(string_from_chars(host.as_slice()));
        assert(spec_string_views(out@) =~= before.push(host@));
        assert(spec_kpasswd_from_admin(views).subrange(0, i + 1) =~= spec_kpasswd_from_admin(
            views,
        ).subrange(0, i as int).push(host@));
        i = i + 1;
    }
    assert(spec_kpasswd_from_admin(views).subrange(0, admin@.len() as int) =~= spec_kpasswd_from_admin(views));
    out
}

#[verifier::spinoff_prover]
#[verifier::rlimit(80)]
fn parse_realm(name: &[char], lines: &[ConfLine]) -> (r: Result<Realm, Error>)
    ensures
        match spec_parse_realm(name@, lines@.map_values(|l: ConfLine| l@)) {
            Ok(m) => r matches Ok(x) && x@ == m,
            Err(f) => r matches Err(e) && e@ == f,
        },
{
    let ghost ls = lines@.map_values(|l: ConfLine| l@);
    let mut b = RealmBuilder {
        realm: Realm {
            realm: string_from_chars(name),
            admin_server: Vec::new(),
            default_domain: String::new(),
            kdc: Vec::new(),
            kpasswd_server: Vec::new(),
            master_kdc: Vec::new(),
        },
        admin_final: false,
        kdc_final: false,
        kpasswd_final: false,
        master_final: false,
    };
    proof {
        assert(spec_string_views(b.realm.admin_server@) =~= Seq::<Seq<char>>::empty());
        assert(spec_string_views(b.realm.kdc@) =~= Seq::<Seq<char>>::empty());
        assert(spec_string_views(b.realm.kpasswd_server@) =~= Seq::<Seq<char>>::empty());
        assert(spec_string_views(b.realm.master_kdc@) =~= Seq::<Seq<char>>::empty());
        assert(ls.subrange(0, 0) =~= Seq::<LineModel>::empty());
    }
    let mut i: usize = 0;
    while i < lines.len()
        invariant
            i <= lines@.len(),
            ls == lines@.map_values(|l: ConfLine| l@),
            spec_realm_lines(name@, ls.subrange(0, i as int)) == Ok::<RealmState, ConfigFault>(b@),
        decreases lines@.len() - i,
    {
        assert(ls.subrange(0, i + 1).drop_last() =~= ls.subrange(0, i as int));
        match realm_step(&mut b, &lines[i]) {
            Ok(()) => {},
            Err(e) => {
                proof {
                    lemma_realm_error_stays(name@, ls, i + 1);
                }
                return Err(e);
            },
        }
        i = i + 1;
    }
    assert(ls.subrange(0, lines@.len() as int) =~= ls);
    let mut realm = b.realm;
    if realm.kpasswd_server.len() == 0 {
        realm.kpasswd_server = kpasswd_from_admin(&realm.admin_server);
    }
    Ok(realm)
}

proof fn lemma_realm_error_stays(name: Seq<char>, ls: Seq<LineModel>, k: int)
    requires
        0 <= k <= ls.len(),
        spec_realm_lines(name, ls.subrange(0, k)) is Err,
    ensures
        spec_realm_lines(name, ls) == spec_realm_lines(name, ls.subrange(0, k)),
    decreases ls.len() - k,
{
    if k < ls.len() {
        assert(ls.drop_last().subrange(0, k) =~= ls.subrange(0, k));
        lemma_realm_error_stays(name, ls.drop_last(), k);
    } else {
        assert(ls.subrange(0, k) =~= ls);
    }
}

// ---------------------------------------------------------------------------
// The realms section

/// Where the realms section reader stands: between realm blocks, or inside
/// the block of `name`, `depth` braces deep, with the block's own lines.
pub enum RealmsScan {
    Outside,
    Block { name: Seq<char>, depth: int, block: Seq<LineModel> },
}

/// The realms read so far and where the reader stands.
pub struct RealmsState {
    pub realms: Seq<RealmModel>,
    pub scan: RealmsScan,
}

pub open spec fn spec_unpaired_message() -> Seq<char> {
    "unpaired closing brace"@
}

pub open spec fn spec_open_message(name: Seq<char>) -> Seq<char> {
    "realm block for "@ + name + " does not start with '{'"@
}

pub open spec fn spec_unclosed_message(name: Seq<char>) -> Seq<char> {
    "realm block for "@ + name + " is not closed"@
}

/// Whether a line, trimmed, starts with `}`.
pub open spec fn spec_starts_close(t: Seq<char>) -> bool {
    let u = spec_trim(t);
    u.len() > 0 && u[0] == '}'
}

/// One line of the realms section. A block holds the lines one brace deep
/// that do not start with `}`; the realm is read when its braces close.
pub open spec fn spec_realms_step(st: RealmsState, line: LineModel) -> Result<RealmsState, ConfigFault> {
    match st.scan {
        RealmsScan::Outside => match spec_assignment(line, "realms"@) {
            Err(f) => Err(f),
            Ok((name, value)) => if spec_count(value, '{') == 0 {
                Err(ConfigFault::InvalidRealmsSection(spec_open_message(name)))
            } else if spec_brace_delta(value) < 0 {
                Err(ConfigFault::InvalidRealmsSection(spec_unpaired_message()))
            } else if spec_brace_delta(value) == 0 {
                match spec_parse_realm(name, Seq::empty()) {
                    Err(f) => Err(f),
                    Ok(r) => Ok(RealmsState { realms: st.realms.push(r), scan: RealmsScan::Outside }),
                }
            } else {
                Ok(
                    RealmsState {
                        realms: st.realms,
                        scan: RealmsScan::Block {
                            name,
                            depth: spec_brace_delta(value),
                            block: Seq::empty(),
                        },
                    },
                )
            },
        },
        RealmsScan::Block { name, depth, block } => {
            let kept = if depth == 1 && !spec_starts_close(line.text) {
                block.push(line)
            } else {
                block
            };
            let d = depth + spec_brace_delta(line.text);
            if d < 0 {
                Err(ConfigFault::InvalidRealmsSection(spec_unpaired_message()))
            } else if d == 0 {
                match spec_parse_realm(name, kept) {
                    Err(f) => Err(f),
                    Ok(r) => Ok(RealmsState { realms: st.realms.push(r), scan: RealmsScan::Outside }),
                }
            } else {
                Ok(RealmsState { realms: st.realms, scan: RealmsScan::Block { name, depth: d, block: kept } })
            }
        },
    }
}

pub open spec fn spec_realms_scan(lines: Seq<LineModel>) -> Result<RealmsState, ConfigFault>
    decreases lines.len(),
{
    if lines.len() == 0 {
        Ok(RealmsState { realms: Seq::empty(), scan: RealmsScan::Outside })
    } else {
        match spec_realms_scan(lines.drop_last()) {
            Err(f) => Err(f),
            Ok(st) => spec_realms_step(st, lines.last()),
        }
    }
}

/// The realms of a `[realms]` section, in order; a block still open at the
/// end is refused.
pub open spec fn spec_parse_realms(lines: Seq<LineModel>) -> Result<Seq<RealmModel>, ConfigFault> {
    match spec_realms_scan(lines) {
        Err(f) => Err(f),
        Ok(st) => match st.scan {
            RealmsScan::Outside => Ok(st.realms),
            RealmsScan::Block { name, .. } => Err(
                ConfigFault::InvalidRealmsSection(spec_unclosed_message(name)),
            ),
        },
    }
}

/// How many characters the lines hold together.
pub open spec fn spec_total_len(lines: Seq<LineModel>) -> nat
    decreases lines.len(),
{
    if lines.len() == 0 {
        0
    } else {
        spec_total_len(lines.drop_last()) + lines.last().text.len()
    }
}

pub(crate) proof fn lemma_total_len_prefix(lines: Seq<LineModel>, k: int)
    requires
        0 <= k <= lines.len(),
    ensures
        spec_total_len(lines.subrange(0, k)) <= spec_total_len(lines),
    decreases lines.len() - k,
{
    if k < lines.len() {
        assert(lines.drop_last().subrange(0, k) =~= lines.subrange(0, k));
        lemma_total_len_prefix(lines.drop_last(), k);
    } else {
        assert(lines.subrange(0, k) =~= lines);
    }
}

proof fn lemma_realms_error_stays(ls: Seq<LineModel>, k: int)
    requires
        0 <= k <= ls.len(),
        spec_realms_scan(ls.subrange(0, k)) is Err,
    ensures
        spec_realms_scan(ls) == spec_realms_scan(ls.subrange(0, k)),
    decreases ls.len() - k,
{
    if k < ls.len() {
        assert(ls.drop_last().subrange(0, k) =~= ls.subrange(0, k));
        lemma_realms_error_stays(ls.drop_last(), k);
    } else {
        assert(ls.subrange(0, k) =~= ls);
    }
}

fn copy_line(line: &ConfLine) -> (r: ConfLine)
    ensures
        r@ == line@,
{
    ConfLine { number: line.number, text: line.text.clone() }
}

fn join3(a: &str, b: &[char], c: &str) -> (r: String)
    ensures
        r@ == a@ + b@ + c@,
{
    let mut out: Vec<char> = Vec::new();
    extend_chars(&mut out, a);
    let mut i: usize = 0;
    while i < b.len()
        invariant
            i <= b@.len(),
            out@ == a@ + b@.subrange(0, i as int),
        decreases b@.len() - i,
    {
        out.push(b[i]);
        i = i + 1;
        assert(out@ =~= a@ + b@.subrange(0, i as int));
    }
    assert(b@.subrange(0, b@.len() as int) =~= b@);
    extend_chars(&mut out, c);
    string_from_chars(out.as_slice())
}

fn realms_error(message: String) -> (e: Error)
    ensures
        e@ == ConfigFault::InvalidRealmsSection(message@),
{
    Error::InvalidRealmsSection(message)
}

#[verifier::spinoff_prover]
#[verifier::rlimit(60)]
pub(crate) fn parse_realms(lines: &[ConfLine]) -> (r: Result<Vec<Realm>, Error>)
    requires
        spec_total_len(lines@.map_values(|l: ConfLine| l@)) <= usize::MAX,
    ensures
        match spec_parse_realms(lines@.map_values(|l: ConfLine| l@)) {
            Ok(v) => r matches Ok(x) && x@.map_values(|m: Realm| m@) == v,
            Err(f) => r matches Err(e) && e@ == f,
        },
{
    let ghost ls = lines@.map_values(|l: ConfLine| l@);
    let mut realms: Vec<Realm> = Vec::new();
    let mut in_block = false;
    let mut name: Vec<char> = Vec::new();
    let mut depth: i128 = 0;
    let mut block: Vec<ConfLine> = Vec::new();
    let mut i: usize = 0;
    proof {
        assert(ls.subrange(0, 0) =~= Seq::<LineModel>::empty());
        assert(realms@.map_values(|m: Realm| m@) =~= Seq::<RealmModel>::empty());
    }
    while i < lines.len()
        invariant
            i <= lines@.len(),
            ls == lines@.map_values(|l: ConfLine| l@),
            spec_total_len(ls) <= usize::MAX,
            -(spec_total_len(ls.subrange(0, i as int)) as int) <= depth <= spec_total_len(ls.subrange(0, i as int)),
            spec_realms_scan(ls.subrange(0, i as int)) == Ok::<RealmsState, ConfigFault>(
                RealmsState {
                    realms: realms@.map_values(|m: Realm| m@),
                    scan: if in_block {
                        RealmsScan::Block {
                            name: name@,
                            depth: depth as int,
                            block: block@.map_values(|l: ConfLine| l@),
                        }
                    } else {
                        RealmsScan::Outside
                    },
                },
            ),
        decreases lines@.len() - i,
    {
        let line = &lines[i];
        let ghost prefix = ls.subrange(0, i as int);
        let ghost realm_views = realms@.map_values(|m: Realm| m@);
        proof {
            assert(ls.subrange(0, i + 1).drop_last() =~= prefix);
            assert(ls.subrange(0, i + 1).last() == line@);
            assert(spec_total_len(ls.subrange(0, i + 1)) == spec_total_len(prefix) + line@.text.len());
            lemma_total_len_prefix(ls, i + 1);
        }
        if !in_block {
            let (rname, value) = match assignment(line, "realms") {
                Ok(kv) => kv,
                Err(e) => {
                    proof {
                        lemma_realms_error_stays(ls, i + 1);
                    }
                    return Err(e);
                },
            };
            proof {
                lemma_count_le(value@, '{');
                lemma_count_le(value@, '}');

            }
            if count_char(value.as_slice(), '{') == 0 {
                proof {
                    lemma_realms_error_stays(ls, i + 1);
                }
                return Err(
                    realms_error(join3("realm block for ", rname.as_slice(), " does not start with '{'")),
                );
            }
            let d = brace_delta(value.as_slice());
            if d < 0 {
                proof {
                    lemma_realms_error_stays(ls, i + 1);
                }
                return Err(realms_error("unpaired closing brace".to_owned()));
            }
            if d == 0 {
                let empty: Vec<ConfLine> = Vec::new();
                proof {
                    assert(empty@.map_values(|l: ConfLine| l@) =~= Seq::<LineModel>::empty());
                }
                match parse_realm(rname.as_slice(), empty.as_slice()) {
                    Ok(r) => {
                        realms.push(r);
                        assert(realms@.map_values(|m: Realm| m@) =~= realm_views.push(r@));
                    },
                    Err(e) => {
                        proof {
                            lemma_realms_error_stays(ls, i + 1);
                        }
                        return Err(e);
                    },
                }
            } else {
                in_block = true;
                name = rname;
                depth = d;
                block = Vec::new();
                assert(block@.map_values(|l: ConfLine| l@) =~= Seq::<LineModel>::empty());
            }
        } else {
            let ghost block_views = block@.map_values(|l: ConfLine| l@);
            let t = trim_chars(line.text.as_slice());
            let starts_close = t.len() > 0 && t[0] == '}';
            if depth == 1 && !starts_close {
                block.push(copy_line(line));
                assert(block@.map_values(|l: ConfLine| l@) =~= block_views.push(line@));
            }
            let delta = brace_delta(line.text.as_slice());
            depth = depth + delta;
            if depth < 0 {
                proof {
                    lemma_realms_error_stays(ls, i + 1);
                }
                return Err(realms_error("unpaired closing brace".to_owned()));
            }
            if depth == 0 {
                match parse_realm(name.as_slice(), block.as_slice()) {
                    Ok(r) => {
                        realms.push(r);
                        assert(realms@.map_values(|m: Realm| m@) =~= realm_views.push(r@));
                        in_block = false;
                    },
                    Err(e) => {
                        proof {
                            lemma_realms_error_stays(ls, i + 1);
                        }
                        return Err(e);
                    },
                }
            }
        }
        i = i + 1;
    }
    assert(ls.subrange(0, lines@.len() as int) =~= ls);
    if in_block {
        return Err(realms_error(join3("realm block for ", name.as_slice(), " is not closed")));
    }
    Ok(realms)
}

proof fn lemma_trim_len(t: Seq<char>, p: int)
    requires
        0 <= p < t.len(),
    ensures
        spec_trim(t.subrange(p + 1, t.len() as int)).len() <= t.len(),
{
    lemma_trim_shorter(t.subrange(p + 1, t.len() as int));
}

pub(crate) proof fn lemma_trim_shorter(s: Seq<char>)
    ensures
        spec_trim(s).len() <= s.len(),
{
    lemma_trim_start_shorter(s);
    lemma_trim_end_shorter(crate::text::spec_trim_start(s));
}

proof fn lemma_trim_start_shorter(s: Seq<char>)
    ensures
        crate::text::spec_trim_start(s).len() <= s.len(),
    decreases s.len(),
{
    if s.len() > 0 && spec_is_whitespace(s[0]) {
        lemma_trim_start_shorter(s.drop_first());
    }
}

proof fn lemma_trim_end_shorter(s: Seq<char>)
    ensures
        spec_trim_end(s).len() <= s.len(),
    decreases s.len(),
{
    if s.len() > 0 && spec_is_whitespace(s.last()) {
        lemma_trim_end_shorter(s.drop_last());
    }
}

// ---------------------------------------------------------------------------
// Library defaults

/// `[libdefaults]` configuration values.
#[derive(Clone, Debug, Eq, PartialEq)]
pub struct LibDefaults {
    /// Whether weak crypto names are retained before supported enctype filtering.
    pub allow_weak_crypto: bool,
    /// Whether clients should request canonicalization.
    pub canonicalize: bool,
    /// Credential cache type.
    pub ccache_type: i32,
    /// Accepted clock skew, in seconds.
    pub clockskew: u64,
    /// Default client keytab path.
    pub default_client_keytab_name: String,
    /// Default service keytab path.
    pub default_keytab_name: String,
    /// Default realm.
    pub default_realm: String,
    /// Preferred TGS enctype names.
    pub default_tgs_enctypes: Vec<String>,
    /// Preferred ticket enctype names.
    pub default_tkt_enctypes: Vec<String>,
    /// Preferred TGS enctype IDs implemented by this crate.
    pub default_tgs_enctype_ids: Vec<i32>,
    /// Preferred ticket enctype IDs implemented by this crate.
    pub default_tkt_enctype_ids: Vec<i32>,
    /// Whether hostnames should be DNS-canonicalized.
    pub dns_canonicalize_hostname: bool,
    /// Whether KDC DNS lookup is enabled.
    pub dns_lookup_kdc: bool,
    /// Whether realm DNS lookup is enabled.
    pub dns_lookup_realm: bool,
    /// Extra local addresses, as the comma-separated texts of the value; the
    /// caller parses them as IP addresses.
    pub extra_addresses: Vec<String>,
    /// Whether tickets should be forwardable.
    pub forwardable: bool,
    /// Whether acceptor hostname mismatches are ignored.
    pub ignore_acceptor_hostname: bool,
    /// Whether `.k5login` is authoritative.
    pub k5login_authoritative: bool,
    /// `.k5login` directory.
    pub k5login_directory: String,
    /// KDC default options bit string as a 32-bit integer.
    pub kdc_default_options: u32,
    /// KDC time sync setting.
    pub kdc_time_sync: i32,
    /// Whether addresses should be omitted from tickets.
    pub no_addresses: bool,
    /// Permitted enctype names.
    pub permitted_enctypes: Vec<String>,
    /// Permitted enctype IDs implemented by this crate.
    pub permitted_enctype_ids: Vec<i32>,
    /// Preferred preauthentication type IDs.
    pub preferred_preauth_types: Vec<i32>,
    /// Whether tickets should be proxiable.
    pub proxiable: bool,
    /// Whether reverse DNS is enabled.
    pub rdns: bool,
    /// Realm suffix search setting.
    pub realm_try_domains: i32,
    /// Renewable ticket lifetime, in seconds.
    pub renew_lifetime: u64,
    /// Safe checksum type.
    pub safe_checksum_type: i32,
    /// Ticket lifetime, in seconds.
    pub ticket_lifetime: u64,
    /// UDP preference limit.
    pub udp_preference_limit: i32,
    /// Whether AP-REQ verification failure should be fatal.
    pub verify_ap_req_nofail: bool,
}

/// `[libdefaults]` values as plain values.
pub struct LibDefaultsModel {
    pub allow_weak_crypto: bool,
    pub canonicalize: bool,
    pub ccache_type: i32,
    pub clockskew: u64,
    pub default_client_keytab_name: Seq<char>,
    pub default_keytab_name: Seq<char>,
    pub default_realm: Seq<char>,
    pub default_tgs_enctypes: Seq<Seq<char>>,
    pub default_tkt_enctypes: Seq<Seq<char>>,
    pub default_tgs_enctype_ids: Seq<i32>,
    pub default_tkt_enctype_ids: Seq<i32>,
    pub dns_canonicalize_hostname: bool,
    pub dns_lookup_kdc: bool,
    pub dns_lookup_realm: bool,
    pub extra_addresses: Seq<Seq<char>>,
    pub forwardable: bool,
    pub ignore_acceptor_hostname: bool,
    pub k5login_authoritative: bool,
    pub k5login_directory: Seq<char>,
    pub kdc_default_options: u32,
    pub kdc_time_sync: i32,
    pub no_addresses: bool,
    pub permitted_enctypes: Seq<Seq<char>>,
    pub permitted_enctype_ids: Seq<i32>,
    pub preferred_preauth_types: Seq<i32>,
    pub proxiable: bool,
    pub rdns: bool,
    pub realm_try_domains: i32,
    pub renew_lifetime: u64,
    pub safe_checksum_type: i32,
    pub ticket_lifetime: u64,
    pub udp_preference_limit: i32,
    pub verify_ap_req_nofail: bool,
}

impl View for LibDefaults {
    type V = LibDefaultsModel;

    open spec fn view(&self) -> LibDefaultsModel {
        LibDefaultsModel {
            allow_weak_crypto: self.allow_weak_crypto,
            canonicalize: self.canonicalize,
            ccache_type: self.ccache_type,
            clockskew: self.clockskew,
            default_client_keytab_name: self.default_client_keytab_name@,
            default_keytab_name: self.default_keytab_name@,
            default_realm: self.default_realm@,
            default_tgs_enctypes: spec_string_views(self.default_tgs_enctypes@),
            default_tkt_enctypes: spec_string_views(self.default_tkt_enctypes@),
            default_tgs_enctype_ids: self.default_tgs_enctype_ids@,
            default_tkt_enctype_ids: self.default_tkt_enctype_ids@,
            dns_canonicalize_hostname: self.dns_canonicalize_hostname,
            dns_lookup_kdc: self.dns_lookup_kdc,
            dns_lookup_realm: self.dns_lookup_realm,
            extra_addresses: spec_string_views(self.extra_addresses@),
            forwardable: self.forwardable,
            ignore_acceptor_hostname: self.ignore_acceptor_hostname,
            k5login_authoritative: self.k5login_authoritative,
            k5login_directory: self.k5login_directory@,
            kdc_default_options: self.kdc_default_options,
            kdc_time_sync: self.kdc_time_sync,
            no_addresses: self.no_addresses,
            permitted_enctypes: spec_string_views(self.permitted_enctypes@),
            permitted_enctype_ids: self.permitted_enctype_ids@,
            preferred_preauth_types: self.preferred_preauth_types@,
            proxiable: self.proxiable,
            rdns: self.rdns,
            realm_try_domains: self.realm_try_domains,
            renew_lifetime: self.renew_lifetime,
            safe_checksum_type: self.safe_checksum_type,
            ticket_lifetime: self.ticket_lifetime,
            udp_preference_limit: self.udp_preference_limit,
            verify_ap_req_nofail: self.verify_ap_req_nofail,
        }
    }
}

/// A krb5 boolean value; another text is an `InvalidBoolean` of it.
pub open spec fn spec_bool_field(value: Seq<char>) -> Result<bool, ConfigFault> {
    match spec_parse_boolean(value) {
        Some(b) => Ok(b),
        None => Err(ConfigFault::InvalidBoolean(value)),
    }
}

fn bool_field(value: &[char]) -> (r: Result<bool, Error>)
    ensures
        match spec_bool_field(value@) {
            Ok(b) => r == Ok::<bool, Error>(b),
            Err(f) => r matches Err(e) && e@ == f,
        },
{
    let v = string_from_chars(value);
    parse_boolean(v.as_str())
}

/// A krb5 duration value in seconds.
pub open spec fn spec_duration_field(value: Seq<char>) -> Result<u64, ConfigFault> {
    match spec_parse_duration(value) {
        Ok(n) => Ok(n as u64),
        Err(DurationFault::Invalid) => Err(ConfigFault::InvalidDuration(value)),
        Err(DurationFault::Overflow) => Err(ConfigFault::DurationOverflow(value)),
    }
}

fn duration_field(value: &[char]) -> (r: Result<u64, Error>)
    ensures
        match spec_duration_field(value@) {
            Ok(n) => r == Ok::<u64, Error>(n),
            Err(f) => r matches Err(e) && e@ == f,
        },
{
    let v = string_from_chars(value);
    parse_duration(v.as_str())
}

/// The trimmed pieces that are not blank.
pub open spec fn spec_nonblank(pieces: Seq<Seq<char>>) -> Seq<Seq<char>>
    decreases pieces.len(),
{
    if pieces.len() == 0 {
        Seq::empty()
    } else {
        let rest = spec_nonblank(pieces.drop_last());
        let t = spec_trim(pieces.last());
        if t.len() > 0 {
            rest.push(t)
        } else {
            rest
        }
    }
}

/// The address texts of an `extra_addresses` value: its comma-separated
/// pieces, trimmed, blank ones dropped.
pub open spec fn spec_address_texts(value: Seq<char>) -> Seq<Seq<char>> {
    spec_nonblank(spec_split(value, ','))
}

fn address_texts(value: &[char]) -> (r: Vec<String>)
    ensures
        spec_string_views(r@) == spec_address_texts(value@),
{
    let pieces = split_chars(value, ',');
    let ghost ps = pieces@.map_values(|p: Vec<char>| p@);
    let mut out: Vec<String> = Vec::new();
    let mut i: usize = 0;
    while i < pieces.len()
        invariant
            i <= pieces@.len(),
            ps == pieces@.map_values(|p: Vec<char>| p@),
            spec_string_views(out@) == spec_nonblank(ps.subrange(0, i as int)),
        decreases pieces@.len() - i,
    {
        assert(ps.subrange(0, i + 1).drop_last() =~= ps.subrange(0, i as int));
        assert(ps.subrange(0, i + 1).last() == pieces@[i as int]@);
        let t = trim_chars(pieces[i].as_slice());
        if t.len() > 0 {
            let ghost before = spec_string_views(out@);
            out.push(string_from_chars(t.as_slice()));
            assert(spec_string_views(out@) =~= before.push(t@));
        }
        i = i + 1;
    }
    assert(ps.subrange(0, pieces@.len() as int) =~= ps);
    out
}

/// Whether `k` names a bool key of `[libdefaults]`.
pub open spec fn spec_bool_key(k: Seq<char>) -> bool {
    k == "allow_weak_crypto"@
    || k == "canonicalize"@
    || k == "dns_canonicalize_hostname"@
    || k == "dns_lookup_kdc"@
    || k == "dns_lookup_realm"@
    || k == "forwardable"@
    || k == "ignore_acceptor_hostname"@
    || k == "k5login_authoritative"@
    || k == "noaddresses"@
    || k == "no_addresses"@
    || k == "proxiable"@
    || k == "rdns"@
    || k == "verify_ap_req_nofail"@
}

/// `ld` with the bool key `k` set to `x`.
pub open spec fn spec_with_bool(ld: LibDefaultsModel, k: Seq<char>, x: bool) -> LibDefaultsModel {
    if k == "allow_weak_crypto"@ {
        LibDefaultsModel { allow_weak_crypto: x, ..ld }
    } else if k == "canonicalize"@ {
        LibDefaultsModel { canonicalize: x, ..ld }
    } else if k == "dns_canonicalize_hostname"@ {
        LibDefaultsModel { dns_canonicalize_hostname: x, ..ld }
    } else if k == "dns_lookup_kdc"@ {
        LibDefaultsModel { dns_lookup_kdc: x, ..ld }
    } else if k == "dns_lookup_realm"@ {
        LibDefaultsModel { dns_lookup_realm: x, ..ld }
    } else if k == "forwardable"@ {
        LibDefaultsModel { forwardable: x, ..ld }
    } else if k == "ignore_acceptor_hostname"@ {
        LibDefaultsModel { ignore_acceptor_hostname: x, ..ld }
    } else if k == "k5login_authoritative"@ {
        LibDefaultsModel { k5login_authoritative: x, ..ld }
    } else if k == "noaddresses"@ || k == "no_addresses"@ {
        LibDefaultsModel { no_addresses: x, ..ld }
    } else if k == "proxiable"@ {
        LibDefaultsModel { proxiable: x, ..ld }
    } else if k == "rdns"@ {
        LibDefaultsModel { rdns: x, ..ld }
    } else if k == "verify_ap_req_nofail"@ {
        LibDefaultsModel { verify_ap_req_nofail: x, ..ld }
    } else {
        ld
    }
}

#[verifier::spinoff_prover]
#[verifier::rlimit(80)]
fn set_bool(ld: &mut LibDefaults, k: &[char], x: bool)
    ensures
        final(ld)@ == spec_with_bool(old(ld)@, k@, x),
{
    if chars_eq(k, "allow_weak_crypto") {
        ld.allow_weak_crypto = x;
    } else if chars_eq(k, "canonicalize") {
        ld.canonicalize = x;
    } else if chars_eq(k, "dns_canonicalize_hostname") {
        ld.dns_canonicalize_hostname = x;
    } else if chars_eq(k, "dns_lookup_kdc") {
        ld.dns_lookup_kdc = x;
    } else if chars_eq(k, "dns_lookup_realm") {
        ld.dns_lookup_realm = x;
    } else if chars_eq(k, "forwardable") {
        ld.forwardable = x;
    } else if chars_eq(k, "ignore_acceptor_hostname") {
        ld.ignore_acceptor_hostname = x;
    } else if chars_eq(k, "k5login_authoritative") {
        ld.k5login_authoritative = x;
    } else if chars_eq(k, "noaddresses") || chars_eq(k, "no_addresses") {
        ld.no_addresses = x;
    } else if chars_eq(k, "proxiable") {
        ld.proxiable = x;
    } else if chars_eq(k, "rdns") {
        ld.rdns = x;
    } else if chars_eq(k, "verify_ap_req_nofail") {
        ld.verify_ap_req_nofail = x;
    }
}

/// Whether `k` names a i32 key of `[libdefaults]`.
pub open spec fn spec_i32_key(k: Seq<char>) -> bool {
    k == "ccache_type"@
    || k == "kdc_timesync"@
    || k == "realm_try_domains"@
    || k == "safe_checksum_type"@
    || k == "udp_preference_limit"@
}

/// `ld` with the i32 key `k` set to `x`.
pub open spec fn spec_with_i32(ld: LibDefaultsModel, k: Seq<char>, x: i32) -> LibDefaultsModel {
    if k == "ccache_type"@ {
        LibDefaultsModel { ccache_type: x, ..ld }
    } else if k == "kdc_timesync"@ {
        LibDefaultsModel { kdc_time_sync: x, ..ld }
    } else if k == "realm_try_domains"@ {
        LibDefaultsModel { realm_try_domains: x, ..ld }
    } else if k == "safe_checksum_type"@ {
        LibDefaultsModel { safe_checksum_type: x, ..ld }
    } else if k == "udp_preference_limit"@ {
        LibDefaultsModel { udp_preference_limit: x, ..ld }
    } else {
        ld
    }
}

#[verifier::spinoff_prover]
#[verifier::rlimit(80)]
fn set_i32(ld: &mut LibDefaults, k: &[char], x: i32)
    ensures
        final(ld)@ == spec_with_i32(old(ld)@, k@, x),
{
    if chars_eq(k, "ccache_type") {
        ld.ccache_type = x;
    } else if chars_eq(k, "kdc_timesync") {
        ld.kdc_time_sync = x;
    } else if chars_eq(k, "realm_try_domains") {
        ld.realm_try_domains = x;
    } else if chars_eq(k, "safe_checksum_type") {
        ld.safe_checksum_type = x;
    } else if chars_eq(k, "udp_preference_limit") {
        ld.udp_preference_limit = x;
    }
}

/// Whether `k` names a dur key of `[libdefaults]`.
pub open spec fn spec_dur_key(k: Seq<char>) -> bool {
    k == "clockskew"@
    || k == "renew_lifetime"@
    || k == "ticket_lifetime"@
}

/// `ld` with the dur key `k` set to `x`.
pub open spec fn spec_with_dur(ld: LibDefaultsModel, k: Seq<char>, x: u64) -> LibDefaultsModel {
    if k == "clockskew"@ {
        LibDefaultsModel { clockskew: x, ..ld }
    } else if k == "renew_lifetime"@ {
        LibDefaultsModel { renew_lifetime: x, ..ld }
    } else if k == "ticket_lifetime"@ {
        LibDefaultsModel { ticket_lifetime: x, ..ld }
    } else {
        ld
    }
}

#[verifier::spinoff_prover]
#[verifier::rlimit(80)]
fn set_dur(ld: &mut LibDefaults, k: &[char], x: u64)
    ensures
        final(ld)@ == spec_with_dur(old(ld)@, k@, x),
{
    if chars_eq(k, "clockskew") {
        ld.clockskew = x;
    } else if chars_eq(k, "renew_lifetime") {
        ld.renew_lifetime = x;
    } else if chars_eq(k, "ticket_lifetime") {
        ld.ticket_lifetime = x;
    }
}

/// Whether `k` names a str key of `[libdefaults]`.
pub open spec fn spec_str_key(k: Seq<char>) -> bool {
    k == "default_client_keytab_name"@
    || k == "default_keytab_name"@
    || k == "default_realm"@
    || k == "k5login_directory"@
}

/// `ld` with the str key `k` set to `x`.
pub open spec fn spec_with_str(ld: LibDefaultsModel, k: Seq<char>, x: Seq<char>) -> LibDefaultsModel {
    if k == "default_client_keytab_name"@ {
        LibDefaultsModel { default_client_keytab_name: x, ..ld }
    } else if k == "default_keytab_name"@ {
        LibDefaultsModel { default_keytab_name: x, ..ld }
    } else if k == "default_realm"@ {
        LibDefaultsModel { default_realm: x, ..ld }
    } else if k == "k5login_directory"@ {
        LibDefaultsModel { k5login_directory: x, ..ld }
    } else {
        ld
    }
}

#[verifier::spinoff_prover]
#[verifier::rlimit(80)]
fn set_str(ld: &mut LibDefaults, k: &[char], x: &[char])
    ensures
        final(ld)@ == spec_with_str(old(ld)@, k@, x@),
{
    if chars_eq(k, "default_client_keytab_name") {
        ld.default_client_keytab_name = string_from_chars(x);
    } else if chars_eq(k, "default_keytab_name") {
        ld.default_keytab_name = string_from_chars(x);
    } else if chars_eq(k, "default_realm") {
        ld.default_realm = string_from_chars(x);
    } else if chars_eq(k, "k5login_directory") {
        ld.k5login_directory = string_from_chars(x);
    }
}

/// Whether `k` names a words key of `[libdefaults]`.
pub open spec fn spec_words_key(k: Seq<char>) -> bool {
    k == "default_tgs_enctypes"@
    || k == "default_tkt_enctypes"@
    || k == "permitted_enctypes"@
}

/// `ld` with the words key `k` set to `x`.
pub open spec fn spec_with_words(ld: LibDefaultsModel, k: Seq<char>, x: Seq<Seq<char>>) -> LibDefaultsModel {
    if k == "default_tgs_enctypes"@ {
        LibDefaultsModel { default_tgs_enctypes: x, ..ld }
    } else if k == "default_tkt_enctypes"@ {
        LibDefaultsModel { default_tkt_enctypes: x, ..ld }
    } else if k == "permitted_enctypes"@ {
        LibDefaultsModel { permitted_enctypes: x, ..ld }
    } else {
        ld
    }
}

#[verifier::spinoff_prover]
#[verifier::rlimit(80)]
fn set_words(ld: &mut LibDefaults, k: &[char], x: Vec<String>)
    ensures
        final(ld)@ == spec_with_words(old(ld)@, k@, spec_string_views(x@)),
{
    if chars_eq(k, "default_tgs_enctypes") {
        ld.default_tgs_enctypes = x;
    } else if chars_eq(k, "default_tkt_enctypes") {
        ld.default_tkt_enctypes = x;
    } else if chars_eq(k, "permitted_enctypes") {
        ld.permitted_enctypes = x;
    }
}

/// The value of key `k` (lower-cased) set from `value` on line `line`;
/// unknown keys are ignored.
pub open spec fn spec_libdefault_set(ld: LibDefaultsModel, k: Seq<char>, value: Seq<char>, line: nat) -> Result<
    LibDefaultsModel,
    ConfigFault,
> {
    if spec_bool_key(k) {
        match spec_bool_field(value) {
            Ok(x) => Ok(spec_with_bool(ld, k, x)),
            Err(e) => Err(e),
        }
    } else if spec_i32_key(k) {
        match spec_i32_option(value, line, k) {
            Ok(x) => Ok(spec_with_i32(ld, k, x)),
            Err(e) => Err(e),
        }
    } else if spec_dur_key(k) {
        match spec_duration_field(value) {
            Ok(x) => Ok(spec_with_dur(ld, k, x)),
            Err(e) => Err(e),
        }
    } else if spec_str_key(k) {
        Ok(spec_with_str(ld, k, value))
    } else if spec_words_key(k) {
        Ok(spec_with_words(ld, k, spec_words(value)))
    } else if k == "extra_addresses"@ {
        Ok(LibDefaultsModel { extra_addresses: spec_address_texts(value), ..ld })
    } else if k == "kdc_default_options"@ {
        match spec_hex_option(value, line, k) {
            Ok(x) => Ok(LibDefaultsModel { kdc_default_options: x, ..ld }),
            Err(e) => Err(e),
        }
    } else if k == "preferred_preauth_types"@ {
        match spec_i32_list(value, line, k) {
            Ok(x) => Ok(LibDefaultsModel { preferred_preauth_types: x, ..ld }),
            Err(e) => Err(e),
        }
    } else {
        Ok(ld)
    }
}

fn is_key(k: &[char], keys: &[&str]) -> (r: bool)
    ensures
        r == exists|i: int| 0 <= i < keys@.len() && k@ == (#[trigger] keys@[i])@,
{
    let mut i: usize = 0;
    while i < keys.len()
        invariant
            i <= keys@.len(),
            forall|j: int| 0 <= j < i ==> k@ != (#[trigger] keys@[j])@,
        decreases keys@.len() - i,
    {
        if chars_eq(k, keys[i]) {
            return true;
        }
        i = i + 1;
    }
    false
}

#[verifier::spinoff_prover]
#[verifier::rlimit(60)]
fn set_libdefault(ld: &mut LibDefaults, k: &[char], value: &[char], line: usize) -> (r: Result<(), Error>)
    ensures
        match spec_libdefault_set(old(ld)@, k@, value@, line as nat) {
            Ok(m) => r is Ok && final(ld)@ == m,
            Err(f) => r matches Err(e) && e@ == f,
        },
{
    let bool_keys = [
        "allow_weak_crypto",
        "canonicalize",
        "dns_canonicalize_hostname",
        "dns_lookup_kdc",
        "dns_lookup_realm",
        "forwardable",
        "ignore_acceptor_hostname",
        "k5login_authoritative",
        "noaddresses",
        "no_addresses",
        "proxiable",
        "rdns",
        "verify_ap_req_nofail",
    ];
    let i32_keys = ["ccache_type", "kdc_timesync", "realm_try_domains", "safe_checksum_type", "udp_preference_limit"];
    let dur_keys = ["clockskew", "renew_lifetime", "ticket_lifetime"];
    let str_keys = ["default_client_keytab_name", "default_keytab_name", "default_realm", "k5login_directory"];
    let words_keys = ["default_tgs_enctypes", "default_tkt_enctypes", "permitted_enctypes"];
    proof {
        assert(spec_bool_key(k@) == exists|i: int| 0 <= i < bool_keys@.len() && k@ == (#[trigger] bool_keys@[i])@) by {
            if spec_bool_key(k@) {
                if k@ == "allow_weak_crypto"@ { assert(k@ == bool_keys@[0]@); }
                if k@ == "canonicalize"@ { assert(k@ == bool_keys@[1]@); }
                if k@ == "dns_canonicalize_hostname"@ { assert(k@ == bool_keys@[2]@); }
                if k@ == "dns_lookup_kdc"@ { assert(k@ == bool_keys@[3]@); }
                if k@ == "dns_lookup_realm"@ { assert(k@ == bool_keys@[4]@); }
                if k@ == "forwardable"@ { assert(k@ == bool_keys@[5]@); }
                if k@ == "ignore_acceptor_hostname"@ { assert(k@ == bool_keys@[6]@); }
                if k@ == "k5login_authoritative"@ { assert(k@ == bool_keys@[7]@); }
                if k@ == "noaddresses"@ { assert(k@ == bool_keys@[8]@); }
                if k@ == "no_addresses"@ { assert(k@ == bool_keys@[9]@); }
                if k@ == "proxiable"@ { assert(k@ == bool_keys@[10]@); }
                if k@ == "rdns"@ { assert(k@ == bool_keys@[11]@); }
                if k@ == "verify_ap_req_nofail"@ { assert(k@ == bool_keys@[12]@); }
            }
        }
        assert(spec_i32_key(k@) == exists|i: int| 0 <= i < i32_keys@.len() && k@ == (#[trigger] i32_keys@[i])@) by {
            if spec_i32_key(k@) {
                if k@ == "ccache_type"@ { assert(k@ == i32_keys@[0]@); }
                if k@ == "kdc_timesync"@ { assert(k@ == i32_keys@[1]@); }
                if k@ == "realm_try_domains"@ { assert(k@ == i32_keys@[2]@); }
                if k@ == "safe_checksum_type"@ { assert(k@ == i32_keys@[3]@); }
                if k@ == "udp_preference_limit"@ { assert(k@ == i32_keys@[4]@); }
            }
        }
        assert(spec_dur_key(k@) == exists|i: int| 0 <= i < dur_keys@.len() && k@ == (#[trigger] dur_keys@[i])@) by {
            if spec_dur_key(k@) {
                if k@ == "clockskew"@ { assert(k@ == dur_keys@[0]@); }
                if k@ == "renew_lifetime"@ { assert(k@ == dur_keys@[1]@); }
                if k@ == "ticket_lifetime"@ { assert(k@ == dur_keys@[2]@); }
            }
        }
        assert(spec_str_key(k@) == exists|i: int| 0 <= i < str_keys@.len() && k@ == (#[trigger] str_keys@[i])@) by {
            if spec_str_key(k@) {
                if k@ == "default_client_keytab_name"@ { assert(k@ == str_keys@[0]@); }
                if k@ == "default_keytab_name"@ { assert(k@ == str_keys@[1]@); }
                if k@ == "default_realm"@ { assert(k@ == str_keys@[2]@); }
                if k@ == "k5login_directory"@ { assert(k@ == str_keys@[3]@); }
            }
        }
        assert(spec_words_key(k@) == exists|i: int| 0 <= i < words_keys@.len() && k@ == (#[trigger] words_keys@[i])@) by {
            if spec_words_key(k@) {
                if k@ == "default_tgs_enctypes"@ { assert(k@ == words_keys@[0]@); }
                if k@ == "default_tkt_enctypes"@ { assert(k@ == words_keys@[1]@); }
                if k@ == "permitted_enctypes"@ { assert(k@ == words_keys@[2]@); }
            }
        }
    }
    if is_key(k, &bool_keys) {
        match bool_field(value) {
            Ok(x) => {
                set_bool(ld, k, x);
                Ok(())
            },
            Err(e) => Err(e),
        }
    } else if is_key(k, &i32_keys) {
        match i32_option(value, line, k) {
            Ok(x) => {
                set_i32(ld, k, x);
                Ok(())
            },
            Err(e) => Err(e),
        }
    } else if is_key(k, &dur_keys) {
        match duration_field(value) {
            Ok(x) => {
                set_dur(ld, k, x);
                Ok(())
            },
            Err(e) => Err(e),
        }
    } else if is_key(k, &str_keys) {
        set_str(ld, k, value);
        Ok(())
    } else if is_key(k, &words_keys) {
        let w = words(value);
        set_words(ld, k, w);
        Ok(())
    } else if chars_eq(k, "extra_addresses") {
        ld.extra_addresses = address_texts(value);
        Ok(())
    } else if chars_eq(k, "kdc_default_options") {
        match hex_option(value, line, k) {
            Ok(x) => {
                ld.kdc_default_options = x;
                Ok(())
            },
            Err(e) => Err(e),
        }
    } else if chars_eq(k, "preferred_preauth_types") {
        match parse_i32_list(value, line, k) {
            Ok(x) => {
                ld.preferred_preauth_types = x;
                Ok(())
            },
            Err(e) => Err(e),
        }
    } else {
        Ok(())
    }
}

/// One `[libdefaults]` line.
pub open spec fn spec_libdefaults_step(ld: LibDefaultsModel, line: LineModel) -> Result<
    LibDefaultsModel,
    ConfigFault,
> {
    match spec_assignment(line, "libdefaults"@) {
        Err(f) => Err(f),
        Ok((key, value)) => {
            let k = spec_ascii_lowercase(key);
            if spec_has_v4(k) {
                Err(ConfigFault::UnsupportedDirective(spec_v4_message()))
            } else {
                spec_libdefault_set(ld, k, value, line.number)
            }
        },
    }
}

pub open spec fn spec_libdefaults_lines(ld: LibDefaultsModel, lines: Seq<LineModel>) -> Result<
    LibDefaultsModel,
    ConfigFault,
>
    decreases lines.len(),
{
    if lines.len() == 0 {
        Ok(ld)
    } else {
        match spec_libdefaults_lines(ld, lines.drop_last()) {
            Err(f) => Err(f),
            Ok(m) => spec_libdefaults_step(m, lines.last()),
        }
    }
}

/// The supported encryption type ids recomputed from the names.
pub open spec fn spec_refresh_enctype_ids(m: LibDefaultsModel) -> LibDefaultsModel {
    LibDefaultsModel {
        default_tgs_enctype_ids: spec_supported_enctype_ids(m.default_tgs_enctypes, m.allow_weak_crypto),
        default_tkt_enctype_ids: spec_supported_enctype_ids(m.default_tkt_enctypes, m.allow_weak_crypto),
        permitted_enctype_ids: spec_supported_enctype_ids(m.permitted_enctypes, m.allow_weak_crypto),
        ..m
    }
}

/// A `[libdefaults]` section applied to `ld`, the enctype ids then
/// recomputed.
pub open spec fn spec_apply_libdefaults(ld: LibDefaultsModel, lines: Seq<LineModel>) -> Result<
    LibDefaultsModel,
    ConfigFault,
> {
    match spec_libdefaults_lines(ld, lines) {
        Err(f) => Err(f),
        Ok(m) => Ok(spec_refresh_enctype_ids(m)),
    }
}

fn libdefaults_step(ld: &mut LibDefaults, line: &ConfLine) -> (r: Result<(), Error>)
    ensures
        match spec_libdefaults_step(old(ld)@, line@) {
            Ok(m) => r is Ok && final(ld)@ == m,
            Err(f) => r matches Err(e) && e@ == f,
        },
{
    let (key, value) = match assignment(line, "libdefaults") {
        Ok(kv) => kv,
        Err(e) => return Err(e),
    };
    let k = lowercase_chars(key.as_slice());
    if has_v4(k.as_slice()) {
        return Err(v4_error());
    }
    set_libdefault(ld, k.as_slice(), value.as_slice(), line.number)
}

proof fn lemma_libdefaults_error_stays(ld: LibDefaultsModel, ls: Seq<LineModel>, k: int)
    requires
        0 <= k <= ls.len(),
        spec_libdefaults_lines(ld, ls.subrange(0, k)) is Err,
    ensures
        spec_libdefaults_lines(ld, ls) == spec_libdefaults_lines(ld, ls.subrange(0, k)),
    decreases ls.len() - k,
{
    if k < ls.len() {
        assert(ls.drop_last().subrange(0, k) =~= ls.subrange(0, k));
        lemma_libdefaults_error_stays(ld, ls.drop_last(), k);
    } else {
        assert(ls.subrange(0, k) =~= ls);
    }
}

/// Once a `[libdefaults]` section has been applied, each list of
/// encryption type ids is the supported subset of its list of names, weak
/// ones dropped unless weak crypto is allowed.
pub proof fn lemma_libdefaults_ids_follow_names(ld: LibDefaultsModel, lines: Seq<LineModel>)
    requires
        spec_apply_libdefaults(ld, lines) is Ok,
    ensures
        ({
            let m = spec_apply_libdefaults(ld, lines)->Ok_0;
            &&& m.default_tgs_enctype_ids == spec_supported_enctype_ids(
                m.default_tgs_enctypes,
                m.allow_weak_crypto,
            )
            &&& m.default_tkt_enctype_ids == spec_supported_enctype_ids(
                m.default_tkt_enctypes,
                m.allow_weak_crypto,
            )
            &&& m.permitted_enctype_ids == spec_supported_enctype_ids(
                m.permitted_enctypes,
                m.allow_weak_crypto,
            )
        }),
{
}

fn refresh_enctype_ids(ld: &mut LibDefaults)
    ensures
        final(ld)@ == spec_refresh_enctype_ids(old(ld)@),
{
    ld.default_tgs_enctype_ids = parse_supported_enctype_ids(
        ld.default_tgs_enctypes.as_slice(),
        ld.allow_weak_crypto,
    );
    ld.default_tkt_enctype_ids = parse_supported_enctype_ids(
        ld.default_tkt_enctypes.as_slice(),
        ld.allow_weak_crypto,
    );
    ld.permitted_enctype_ids = parse_supported_enctype_ids(
        ld.permitted_enctypes.as_slice(),
        ld.allow_weak_crypto,
    );
}

#[verifier::spinoff_prover]
#[verifier::rlimit(80)]
pub(crate) fn apply_libdefaults(ld: &mut LibDefaults, lines: &[ConfLine]) -> (r: Result<(), Error>)
    ensures
        match spec_apply_libdefaults(old(ld)@, lines@.map_values(|l: ConfLine| l@)) {
            Ok(m) => r is Ok && final(ld)@ == m,
            Err(f) => r matches Err(e) && e@ == f,
        },
{
    let ghost ls = lines@.map_values(|l: ConfLine| l@);
    let ghost start = ld@;
    let mut i: usize = 0;
    assert(ls.subrange(0, 0) =~= Seq::<LineModel>::empty());
    while i < lines.len()
        invariant
            i <= lines@.len(),
            ls == lines@.map_values(|l: ConfLine| l@),
            start == old(ld)@,
            spec_libdefaults_lines(start, ls.subrange(0, i as int)) == Ok::<
                LibDefaultsModel,
                ConfigFault,
            >(ld@),
        decreases lines@.len() - i,
    {
        assert(ls.subrange(0, i + 1).drop_last() =~= ls.subrange(0, i as int));
        match libdefaults_step(ld, &lines[i]) {
            Ok(()) => {},
            Err(e) => {
                proof {
                    lemma_libdefaults_error_stays(start, ls, i + 1);
                }
                return Err(e);
            },
        }
        i = i + 1;
    }
    assert(ls.subrange(0, lines@.len() as int) =~= ls);
    refresh_enctype_ids(ld);
    Ok(())
}

/// The encryption type names in effect before any `[libdefaults]` line.
pub open spec fn spec_default_enctypes() -> Seq<Seq<char>> {
    seq![
        "aes256-cts-hmac-sha1-96"@,
        "aes128-cts-hmac-sha1-96"@,
        "des3-cbc-sha1"@,
        "arcfour-hmac-md5"@,
        "camellia256-cts-cmac"@,
        "camellia128-cts-cmac"@,
        "des-cbc-crc"@,
        "des-cbc-md5"@,
        "des-cbc-md4"@,
    ]
}

fn default_enctypes() -> (r: Vec<String>)
    ensures
        spec_string_views(r@) == spec_default_enctypes(),
{
    let r = vec![
        "aes256-cts-hmac-sha1-96".to_owned(),
        "aes128-cts-hmac-sha1-96".to_owned(),
        "des3-cbc-sha1".to_owned(),
        "arcfour-hmac-md5".to_owned(),
        "camellia256-cts-cmac".to_owned(),
        "camellia128-cts-cmac".to_owned(),
        "des-cbc-crc".to_owned(),
        "des-cbc-md5".to_owned(),
        "des-cbc-md4".to_owned(),
    ];
    assert(spec_string_views(r@) =~= spec_default_enctypes());
    r
}

/// The library defaults before any `[libdefaults]` line, given the values
/// of the `UID` and `HOME` environment variables.
pub open spec fn spec_default_libdefaults(uid: Option<Seq<char>>, home: Option<Seq<char>>) -> LibDefaultsModel {
    spec_refresh_enctype_ids(
        LibDefaultsModel {
            allow_weak_crypto: false,
            canonicalize: false,
            ccache_type: 4i32,
            clockskew: 300u64,
            default_client_keytab_name: "/usr/local/var/krb5/user/"@ + match uid {
                Some(u) => u,
                None => "0"@,
            } + "/client.keytab"@,
            default_keytab_name: "/etc/krb5.keytab"@,
            default_realm: Seq::empty(),
            default_tgs_enctypes: spec_default_enctypes(),
            default_tkt_enctypes: spec_default_enctypes(),
            default_tgs_enctype_ids: Seq::empty(),
            default_tkt_enctype_ids: Seq::empty(),
            dns_canonicalize_hostname: true,
            dns_lookup_kdc: true,
            dns_lookup_realm: true,
            extra_addresses: Seq::empty(),
            forwardable: false,
            ignore_acceptor_hostname: false,
            k5login_authoritative: false,
            k5login_directory: match home {
                Some(h) => h,
                None => Seq::empty(),
            },
            kdc_default_options: 0x10u32,
            kdc_time_sync: 1i32,
            no_addresses: true,
            permitted_enctypes: spec_default_enctypes(),
            permitted_enctype_ids: Seq::empty(),
            preferred_preauth_types: seq![17i32, 16i32, 15i32, 14i32],
            proxiable: false,
            rdns: true,
            realm_try_domains: -1i32,
            renew_lifetime: 0u64,
            safe_checksum_type: 8i32,
            ticket_lifetime: 86400u64,
            udp_preference_limit: 1465i32,
            verify_ap_req_nofail: false,
        },
    )
}

impl LibDefaults {
    /// Create default libdefaults. `uid` and `home` are the values of the
    /// `UID` and `HOME` environment variables, when set: the default client
    /// keytab lives under the user's id (`0` without one) and `.k5login`
    /// files in the home directory.
    pub fn new(uid: Option<&str>, home: Option<&str>) -> (r: Self)
        ensures
            r@ == spec_default_libdefaults(
                match uid {
                    Some(u) => Some(u@),
                    None => None,
                },
                match home {
                    Some(h) => Some(h@),
                    None => None,
                },
            ),
    {
        let mut name: Vec<char> = Vec::new();
        extend_chars(&mut name, "/usr/local/var/krb5/user/");
        match uid {
            Some(u) => extend_chars(&mut name, u),
            None => extend_chars(&mut name, "0"),
        }
        extend_chars(&mut name, "/client.keytab");
        let directory = match home {
            Some(h) => h.to_owned(),
            None => String::new(),
        };
        let preauth = vec![17i32, 16i32, 15i32, 14i32];
        let mut defaults = LibDefaults {
            allow_weak_crypto: false,
            canonicalize: false,
            ccache_type: 4,
            clockskew: 300,
            default_client_keytab_name: string_from_chars(name.as_slice()),
            default_keytab_name: "/etc/krb5.keytab".to_owned(),
            default_realm: String::new(),
            default_tgs_enctypes: default_enctypes(),
            default_tkt_enctypes: default_enctypes(),
            default_tgs_enctype_ids: Vec::new(),
            default_tkt_enctype_ids: Vec::new(),
            dns_canonicalize_hostname: true,
            dns_lookup_kdc: true,
            dns_lookup_realm: true,
            extra_addresses: Vec::new(),
            forwardable: false,
            ignore_acceptor_hostname: false,
            k5login_authoritative: false,
            k5login_directory: directory,
            kdc_default_options: 0x10,
            kdc_time_sync: 1,
            no_addresses: true,
            permitted_enctypes: default_enctypes(),
            permitted_enctype_ids: Vec::new(),
            preferred_preauth_types: preauth,
            proxiable: false,
            rdns: true,
            realm_try_domains: -1,
            renew_lifetime: 0,
            safe_checksum_type: 8,
            ticket_lifetime: 86400,
            udp_preference_limit: 1465,
            verify_ap_req_nofail: false,
        };
        proof {
            assert(spec_string_views(defaults.extra_addresses@) =~= Seq::<Seq<char>>::empty());
            assert(defaults.preferred_preauth_types@ =~= seq![17i32, 16i32, 15i32, 14i32]);
        }
        refresh_enctype_ids(&mut defaults);
        defaults
    }
}

} // verus!
