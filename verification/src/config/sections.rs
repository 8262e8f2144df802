//! A whole `krb5.conf`: its sections, applied in order, and the lookups a
//! client makes in it.

use vstd::prelude::*;

use super::krb5_conf::{
    apply_libdefaults, assignment, chars_eq, clean_line, lemma_total_len_prefix,
    lemma_trim_shorter, lowercase_chars, new_line, parse_realms, spec_apply_libdefaults,
    spec_assignment, spec_clean, spec_comment_at, spec_parse_realms, spec_total_len, ConfLine,
    LibDefaults, LibDefaultsModel, LineModel, Realm, RealmModel,
};
use super::{spec_split, split_chars, ConfigFault, Error};
use crate::text::{
    find_char, spec_find, spec_ascii_lowercase, spec_string_views, spec_trim, str_chars, str_eq, string_from_chars,
    trim_chars,
};

verus! {

/// The section a header line opens.
#[derive(Clone, Copy, Debug, Eq, PartialEq)]
pub enum SectionKind {
    /// `[libdefaults]`.
    LibDefaults,
    /// `[realms]`.
    Realms,
    /// `[domain_realm]`.
    DomainRealm,
    /// Any other section: its lines are skipped.
    Unknown,
}

/// The section a cleaned line opens, when it is a header `[name]`: the
/// name between `[` and the first `]`, trimmed, in any ASCII case.
pub open spec fn spec_section_of(c: Seq<char>) -> Option<SectionKind> {
    match spec_find(c, ']') {
        None => None,
        Some(close) => if c.len() > 0 && c[0] == '[' {
            let name = spec_ascii_lowercase(spec_trim(c.subrange(1, close)));
            Some(
                if name == "libdefaults"@ {
                    SectionKind::LibDefaults
                } else if name == "realms"@ {
                    SectionKind::Realms
                } else if name == "domain_realm"@ {
                    SectionKind::DomainRealm
                } else {
                    SectionKind::Unknown
                },
            )
        } else {
            None
        },
    }
}

fn section_of(c: &[char]) -> (r: Option<SectionKind>)
    ensures
        r == spec_section_of(c@),
{
    match find_char(c, ']') {
        None => None,
        Some(close) => {
            if c.len() > 0 && c[0] == '[' {
                let inner = trim_chars(&c[1..close]);
                let name = lowercase_chars(inner.as_slice());
                if chars_eq(name.as_slice(), "libdefaults") {
                    Some(SectionKind::LibDefaults)
                } else if chars_eq(name.as_slice(), "realms") {
                    Some(SectionKind::Realms)
                } else if chars_eq(name.as_slice(), "domain_realm") {
                    Some(SectionKind::DomainRealm)
                } else {
                    Some(SectionKind::Unknown)
                }
            } else {
                None
            }
        },
    }
}

// ---------------------------------------------------------------------------
// Domain to realm mappings

/// The realm mapped to `key`: the first pair with that key.
pub open spec fn spec_dr_lookup(dr: Seq<(Seq<char>, Seq<char>)>, key: Seq<char>) -> Option<Seq<char>>
    decreases dr.len(),
{
    if dr.len() == 0 {
        None
    } else if dr[0].0 == key {
        Some(dr[0].1)
    } else {
        spec_dr_lookup(dr.drop_first(), key)
    }
}

/// `dr` with `key` mapped to `value`: the first pair with that key
/// replaced, else the pair added at the end.
pub open spec fn spec_dr_insert(dr: Seq<(Seq<char>, Seq<char>)>, key: Seq<char>, value: Seq<char>) -> Seq<
    (Seq<char>, Seq<char>),
>
    decreases dr.len(),
{
    if dr.len() == 0 {
        seq![(key, value)]
    } else if dr[0].0 == key {
        dr.update(0, (key, value))
    } else {
        seq![dr[0]] + spec_dr_insert(dr.drop_first(), key, value)
    }
}

proof fn lemma_dr_lookup_at(dr: Seq<(Seq<char>, Seq<char>)>, key: Seq<char>, i: int)
    requires
        0 <= i <= dr.len(),
        forall|j: int| 0 <= j < i ==> (#[trigger] dr[j]).0 != key,
        i < dr.len() ==> dr[i].0 == key,
    ensures
        spec_dr_lookup(dr, key) == if i < dr.len() {
            Some(dr[i].1)
        } else {
            None::<Seq<char>>
        },
        spec_dr_insert(dr, key, Seq::empty()).len() >= 0,
    decreases i,
{
    if i > 0 {
        assert forall|j: int| 0 <= j < i - 1 implies (#[trigger] dr.drop_first()[j]).0 != key by {
            assert(dr.drop_first()[j] == dr[j + 1]);
        }
        lemma_dr_lookup_at(dr.drop_first(), key, i - 1);
    }
}

proof fn lemma_dr_insert_at(dr: Seq<(Seq<char>, Seq<char>)>, key: Seq<char>, value: Seq<char>, i: int)
    requires
        0 <= i <= dr.len(),
        forall|j: int| 0 <= j < i ==> (#[trigger] dr[j]).0 != key,
        i < dr.len() ==> dr[i].0 == key,
    ensures
        spec_dr_insert(dr, key, value) == if i < dr.len() {
            dr.update(i, (key, value))
        } else {
            dr.push((key, value))
        },
    decreases i,
{
    if i > 0 {
        assert forall|j: int| 0 <= j < i - 1 implies (#[trigger] dr.drop_first()[j]).0 != key by {
            assert(dr.drop_first()[j] == dr[j + 1]);
        }
        lemma_dr_insert_at(dr.drop_first(), key, value, i - 1);
        if i < dr.len() {
            assert(seq![dr[0]] + dr.drop_first().update(i - 1, (key, value)) =~= dr.update(i, (key, value)));
        } else {
            assert(seq![dr[0]] + dr.drop_first().push((key, value)) =~= dr.push((key, value)));
        }
    } else if i == dr.len() {
        assert(seq![(key, value)] =~= dr.push((key, value)));
    }
}

/// The pairs of a mapping list as plain values.
pub open spec fn spec_pairs(v: Seq<(String, String)>) -> Seq<(Seq<char>, Seq<char>)> {
    v.map_values(|p: (String, String)| (p.0@, p.1@))
}

fn find_key(dr: &Vec<(String, String)>, key: &[char]) -> (r: usize)
    ensures
        r <= dr@.len(),
        forall|j: int| 0 <= j < r ==> (#[trigger] spec_pairs(dr@)[j]).0 != key@,
        r < dr@.len() ==> spec_pairs(dr@)[r as int].0 == key@,
{
    let mut i: usize = 0;
    while i < dr.len()
        invariant
            i <= dr@.len(),
            forall|j: int| 0 <= j < i ==> (#[trigger] spec_pairs(dr@)[j]).0 != key@,
        decreases dr@.len() - i,
    {
        if chars_eq(key, dr[i].0.as_str()) {
            return i;
        }
        i = i + 1;
    }
    i
}

fn dr_insert(dr: &mut Vec<(String, String)>, key: &[char], value: &[char])
    ensures
        spec_pairs(final(dr)@) == spec_dr_insert(spec_pairs(old(dr)@), key@, value@),
{
    let ghost before = spec_pairs(dr@);
    let i = find_key(dr, key);
    proof {
        lemma_dr_insert_at(before, key@, value@, i as int);
    }
    let pair = (string_from_chars(key), string_from_chars(value));
    if i < dr.len() {
        dr.set(i, pair);
        assert(spec_pairs(dr@) =~= before.update(i as int, (key@, value@)));
    } else {
        dr.push(pair);
        assert(spec_pairs(dr@) =~= before.push((key@, value@)));
    }
}

/// One `[domain_realm]` line: `domain = realm`, the domain lower-cased.
pub open spec fn spec_domain_realm_step(dr: Seq<(Seq<char>, Seq<char>)>, line: LineModel) -> Result<
    Seq<(Seq<char>, Seq<char>)>,
    ConfigFault,
> {
    match spec_assignment(line, "domain_realm"@) {
        Err(f) => Err(f),
        Ok((domain, realm)) => Ok(spec_dr_insert(dr, spec_ascii_lowercase(domain), realm)),
    }
}

pub open spec fn spec_domain_realm_lines(dr: Seq<(Seq<char>, Seq<char>)>, lines: Seq<LineModel>) -> Result<
    Seq<(Seq<char>, Seq<char>)>,
    ConfigFault,
>
    decreases lines.len(),
{
    if lines.len() == 0 {
        Ok(dr)
    } else {
        match spec_domain_realm_lines(dr, lines.drop_last()) {
            Err(f) => Err(f),
            Ok(d) => spec_domain_realm_step(d, lines.last()),
        }
    }
}

proof fn lemma_domain_realm_error_stays(dr: Seq<(Seq<char>, Seq<char>)>, ls: Seq<LineModel>, k: int)
    requires
        0 <= k <= ls.len(),
        spec_domain_realm_lines(dr, ls.subrange(0, k)) is Err,
    ensures
        spec_domain_realm_lines(dr, ls) == spec_domain_realm_lines(dr, ls.subrange(0, k)),
    decreases ls.len() - k,
{
    if k < ls.len() {
        assert(ls.drop_last().subrange(0, k) =~= ls.subrange(0, k));
        lemma_domain_realm_error_stays(dr, ls.drop_last(), k);
    } else {
        assert(ls.subrange(0, k) =~= ls);
    }
}

fn apply_domain_realm(dr: &mut Vec<(String, String)>, lines: &[ConfLine]) -> (r: Result<(), Error>)
    ensures
        match spec_domain_realm_lines(spec_pairs(old(dr)@), lines@.map_values(|l: ConfLine| l@)) {
            Ok(d) => r is Ok && spec_pairs(final(dr)@) == d,
            Err(f) => r matches Err(e) && e@ == f,
        },
{
    let ghost ls = lines@.map_values(|l: ConfLine| l@);
    let ghost start = spec_pairs(dr@);
    let mut i: usize = 0;
    assert(ls.subrange(0, 0) =~= Seq::<LineModel>::empty());
    while i < lines.len()
        invariant
            i <= lines@.len(),
            ls == lines@.map_values(|l: ConfLine| l@),
            start == spec_pairs(old(dr)@),
            spec_domain_realm_lines(start, ls.subrange(0, i as int)) == Ok::<
                Seq<(Seq<char>, Seq<char>)>,
                ConfigFault,
            >(spec_pairs(dr@)),
        decreases lines@.len() - i,
    {
        assert(ls.subrange(0, i + 1).drop_last() =~= ls.subrange(0, i as int));
        let (domain, realm) = match assignment(&lines[i], "domain_realm") {
            Ok(kv) => kv,
            Err(e) => {
                proof {
                    lemma_domain_realm_error_stays(start, ls, i + 1);
                }
                return Err(e);
            },
        };
        let key = lowercase_chars(domain.as_slice());
        dr_insert(dr, key.as_slice(), realm.as_slice());
        i = i + 1;
    }
    assert(ls.subrange(0, lines@.len() as int) =~= ls);
    Ok(())
}

// ---------------------------------------------------------------------------
// The whole file

/// Parsed Kerberos configuration.
#[derive(Clone, Debug, Eq, PartialEq)]
pub struct Config {
    /// `[libdefaults]` values.
    pub libdefaults: LibDefaults,
    /// `[realms]` entries in file order.
    pub realms: Vec<Realm>,
    /// `[domain_realm]` mappings from lower-case domain names to realms, each
    /// domain once, in the order first mapped.
    pub domain_realm: Vec<(String, String)>,
}

/// A configuration as plain values.
pub struct ConfigModel {
    pub libdefaults: LibDefaultsModel,
    pub realms: Seq<RealmModel>,
    pub domain_realm: Seq<(Seq<char>, Seq<char>)>,
}

impl View for Config {
    type V = ConfigModel;

    open spec fn view(&self) -> ConfigModel {
        ConfigModel {
            libdefaults: self.libdefaults@,
            realms: self.realms@.map_values(|r: Realm| r@),
            domain_realm: spec_pairs(self.domain_realm@),
        }
    }
}

/// A section's lines applied to a configuration: `[libdefaults]` lines
/// update the defaults, a `[realms]` section replaces the realms, and
/// `[domain_realm]` lines add mappings.
pub open spec fn spec_apply_section(cfg: ConfigModel, kind: SectionKind, lines: Seq<LineModel>) -> Result<
    ConfigModel,
    ConfigFault,
> {
    match kind {
        SectionKind::LibDefaults => match spec_apply_libdefaults(cfg.libdefaults, lines) {
            Err(f) => Err(f),
            Ok(ld) => Ok(ConfigModel { libdefaults: ld, ..cfg }),
        },
        SectionKind::Realms => match spec_parse_realms(lines) {
            Err(f) => Err(f),
            Ok(rs) => Ok(ConfigModel { realms: rs, ..cfg }),
        },
        SectionKind::DomainRealm => match spec_domain_realm_lines(cfg.domain_realm, lines) {
            Err(f) => Err(f),
            Ok(dr) => Ok(ConfigModel { domain_realm: dr, ..cfg }),
        },
        SectionKind::Unknown => Ok(cfg),
    }
}

/// Where the reader of a file stands: the configuration so far, the
/// section being read and its lines.
pub struct ScanState {
    pub config: ConfigModel,
    pub current: SectionKind,
    pub lines: Seq<LineModel>,
}

/// One raw line, numbered `number`: blank lines and comments are skipped,
/// a header applies the section read so far and opens another, and any
/// other line is kept for its section (none before the first header).
pub open spec fn spec_scan_step(st: ScanState, raw: Seq<char>, number: nat) -> Result<ScanState, ConfigFault> {
    let c = spec_clean(raw);
    if c.len() == 0 {
        Ok(st)
    } else {
        match spec_section_of(c) {
            Some(kind) => match spec_apply_section(st.config, st.current, st.lines) {
                Err(f) => Err(f),
                Ok(cfg) => Ok(ScanState { config: cfg, current: kind, lines: Seq::empty() }),
            },
            None => if st.current != SectionKind::Unknown {
                Ok(ScanState { lines: st.lines.push(LineModel { number, text: c }), ..st })
            } else {
                Ok(st)
            },
        }
    }
}

pub open spec fn spec_scan(raws: Seq<Seq<char>>, start: ConfigModel) -> Result<ScanState, ConfigFault>
    decreases raws.len(),
{
    if raws.len() == 0 {
        Ok(ScanState { config: start, current: SectionKind::Unknown, lines: Seq::empty() })
    } else {
        match spec_scan(raws.drop_last(), start) {
            Err(f) => Err(f),
            Ok(st) => spec_scan_step(st, raws.last(), raws.len()),
        }
    }
}

/// The configuration a `krb5.conf` text gives, starting from `libdefaults`
/// and no realms or mappings; lines are split at `\n` and numbered from 1.
pub open spec fn spec_parse_config(input: Seq<char>, libdefaults: LibDefaultsModel) -> Result<
    ConfigModel,
    ConfigFault,
> {
    let start = ConfigModel { libdefaults, realms: Seq::empty(), domain_realm: Seq::empty() };
    match spec_scan(spec_split(input, '\n'), start) {
        Err(f) => Err(f),
        Ok(st) => spec_apply_section(st.config, st.current, st.lines),
    }
}

/// How many characters pieces hold together.
pub open spec fn spec_pieces_len(ps: Seq<Seq<char>>) -> nat
    decreases ps.len(),
{
    if ps.len() == 0 {
        0
    } else {
        spec_pieces_len(ps.drop_last()) + ps.last().len()
    }
}

proof fn lemma_split_len(s: Seq<char>, c: char)
    ensures
        spec_pieces_len(spec_split(s, c)) <= s.len(),
        spec_split(s, c).len() >= 1,
    decreases s.len(),
{
    if s.len() == 0 {
        let e = seq![Seq::<char>::empty()];
        assert(e.drop_last() =~= Seq::<Seq<char>>::empty());
        assert(e.last() == Seq::<char>::empty());
        assert(spec_pieces_len(Seq::<Seq<char>>::empty()) == 0);
        assert(spec_pieces_len(e) == 0);
        assert(spec_split(s, c) == e);
    } else {
        lemma_split_len(s.drop_last(), c);
        let parts = spec_split(s.drop_last(), c);
        if s.last() != c {
            let q = parts.update(parts.len() - 1, parts.last().push(s.last()));
            assert(q.drop_last() =~= parts.drop_last());
            assert(q.last() == parts.last().push(s.last()));
            assert(spec_pieces_len(q) == spec_pieces_len(parts) + 1);
            assert(spec_split(s, c) == q);
        } else {
            let q = parts.push(Seq::<char>::empty());
            assert(q.drop_last() =~= parts);
            assert(spec_pieces_len(q) == spec_pieces_len(parts));
            assert(spec_split(s, c) == q);
        }
    }
}

proof fn lemma_pieces_len_prefix(ps: Seq<Seq<char>>, k: int)
    requires
        0 <= k <= ps.len(),
    ensures
        spec_pieces_len(ps.subrange(0, k)) <= spec_pieces_len(ps),
    decreases ps.len() - k,
{
    if k < ps.len() {
        assert(ps.drop_last().subrange(0, k) =~= ps.subrange(0, k));
        lemma_pieces_len_prefix(ps.drop_last(), k);
    } else {
        assert(ps.subrange(0, k) =~= ps);
    }
}

proof fn lemma_scan_error_stays(raws: Seq<Seq<char>>, start: ConfigModel, k: int)
    requires
        0 <= k <= raws.len(),
        spec_scan(raws.subrange(0, k), start) is Err,
    ensures
        spec_scan(raws, start) == spec_scan(raws.subrange(0, k), start),
    decreases raws.len() - k,
{
    if k < raws.len() {
        assert(raws.drop_last().subrange(0, k) =~= raws.subrange(0, k));
        lemma_scan_error_stays(raws.drop_last(), start, k);
    } else {
        assert(raws.subrange(0, k) =~= raws);
    }
}

fn apply_section(cfg: &mut Config, kind: SectionKind, lines: &[ConfLine]) -> (r: Result<(), Error>)
    requires
        spec_total_len(lines@.map_values(|l: ConfLine| l@)) <= usize::MAX,
    ensures
        match spec_apply_section(old(cfg)@, kind, lines@.map_values(|l: ConfLine| l@)) {
            Ok(m) => r is Ok && final(cfg)@ == m,
            Err(f) => r matches Err(e) && e@ == f,
        },
{
    match kind {
        SectionKind::LibDefaults => apply_libdefaults(&mut cfg.libdefaults, lines),
        SectionKind::Realms => match parse_realms(lines) {
            Ok(rs) => {
                cfg.realms = rs;
                Ok(())
            },
            Err(e) => Err(e),
        },
        SectionKind::DomainRealm => apply_domain_realm(&mut cfg.domain_realm, lines),
        SectionKind::Unknown => Ok(()),
    }
}

proof fn lemma_clean_shorter(raw: Seq<char>)
    ensures
        spec_clean(raw).len() <= raw.len(),
{
    lemma_comment_le(raw);
    lemma_trim_shorter(raw.subrange(0, spec_comment_at(raw) as int));
}

proof fn lemma_comment_le(s: Seq<char>)
    ensures
        spec_comment_at(s) <= s.len(),
    decreases s.len(),
{
    if s.len() > 0 && s[0] != '#' && s[0] != ';' {
        lemma_comment_le(s.drop_first());
    }
}

impl Config {
    /// A configuration with the given library defaults and no parsed
    /// sections.
    pub fn new(libdefaults: LibDefaults) -> (r: Self)
        ensures
            r@ == (ConfigModel { libdefaults: libdefaults@, realms: Seq::empty(), domain_realm: Seq::empty() }),
    {
        let r = Config { libdefaults, realms: Vec::new(), domain_realm: Vec::new() };
        assert(r@.realms =~= Seq::<RealmModel>::empty());
        assert(r@.domain_realm =~= Seq::<(Seq<char>, Seq<char>)>::empty());
        r
    }

    /// Parse a `krb5.conf` text on top of `libdefaults` (see
    /// `LibDefaults::new`).
    #[verifier::spinoff_prover]
    #[verifier::rlimit(60)]
    #[verifier::loop_isolation(false)]
    pub fn parse(input: &str, libdefaults: LibDefaults) -> (r: Result<Self, Error>)
        ensures
            match spec_parse_config(input@, libdefaults@) {
                Ok(m) => r matches Ok(c) && c@ == m,
                Err(f) => r matches Err(e) && e@ == f,
            },
    {
        let ghost ld0 = libdefaults@;
        let mut config = Config::new(libdefaults);
        let ghost start = config@;
        let chars = str_chars(input);
        let n = chars.len();
        assert(chars@.len() == n);
        let raws = split_chars(chars.as_slice(), '\n');
        let ghost rs = raws@.map_values(|p: Vec<char>| p@);
        proof {
            lemma_split_len(chars@, '\n');
            assert(rs.subrange(0, 0) =~= Seq::<Seq<char>>::empty());
        }
        let mut current = SectionKind::Unknown;
        let mut lines: Vec<ConfLine> = Vec::new();
        let mut i: usize = 0;
        proof {
            assert(lines@.map_values(|l: ConfLine| l@) =~= Seq::<LineModel>::empty());
        }
        while i < raws.len()
            invariant
                i <= raws@.len(),
                rs == raws@.map_values(|p: Vec<char>| p@),
                rs == spec_split(input@, '\n'),
                spec_pieces_len(rs) <= chars@.len(),
                chars@.len() == n,
                chars@ == input@,
                start == (ConfigModel { libdefaults: ld0, realms: Seq::empty(), domain_realm: Seq::empty() }),
                spec_total_len(lines@.map_values(|l: ConfLine| l@)) <= spec_pieces_len(rs.subrange(0, i as int)),
                spec_scan(rs.subrange(0, i as int), start) == Ok::<ScanState, ConfigFault>(
                    ScanState {
                        config: config@,
                        current,
                        lines: lines@.map_values(|l: ConfLine| l@),
                    },
                ),
            decreases raws@.len() - i,
        {
            let ghost ls = lines@.map_values(|l: ConfLine| l@);
            proof {
                assert(rs.subrange(0, i + 1).drop_last() =~= rs.subrange(0, i as int));
                assert(rs.subrange(0, i + 1).last() == raws@[i as int]@);
                assert(spec_pieces_len(rs.subrange(0, i + 1)) == spec_pieces_len(rs.subrange(0, i as int))
                    + raws@[i as int]@.len());
                lemma_pieces_len_prefix(rs, i + 1);
                lemma_clean_shorter(raws@[i as int]@);
            }
            let c = clean_line(raws[i].as_slice());
            if c.len() > 0 {
                match section_of(c.as_slice()) {
                    Some(kind) => {
                        let ghost before = config@;
                        match apply_section(&mut config, current, lines.as_slice()) {
                            Ok(()) => {},
                            Err(e) => {
                                proof {
                                    assert(spec_apply_section(before, current, ls) == Err::<
                                        ConfigModel,
                                        ConfigFault,
                                    >(e@));
                                    assert(spec_scan_step(
                                        ScanState { config: before, current, lines: ls },
                                        raws@[i as int]@,
                                        (i + 1) as nat,
                                    ) == Err::<ScanState, ConfigFault>(e@));
                                    assert(spec_scan(rs.subrange(0, i + 1), start) == Err::<
                                        ScanState,
                                        ConfigFault,
                                    >(e@));
                                    lemma_scan_error_stays(rs, start, i + 1);
                                }
                                return Err(e);
                            },
                        }
                        current = kind;
                        lines = Vec::new();
                        assert(lines@.map_values(|l: ConfLine| l@) =~= Seq::<LineModel>::empty());
                    },
                    None => {
                        let is_unknown = match current {
                            SectionKind::Unknown => true,
                            _ => false,
                        };
                        if !is_unknown {
                            let number = i + 1;
                            lines.push(new_line(number, c));
                            assert(lines@.map_values(|l: ConfLine| l@) =~= ls.push(
                                LineModel { number: (i + 1) as nat, text: c@ },
                            ));
                            assert(ls.push(LineModel { number: (i + 1) as nat, text: c@ }).drop_last() =~= ls);
                        }
                    },
                }
            }
            i = i + 1;
        }
        assert(rs.subrange(0, raws@.len() as int) =~= rs);
        match apply_section(&mut config, current, lines.as_slice()) {
            Ok(()) => Ok(config),
            Err(e) => Err(e),
        }
    }
}

// ---------------------------------------------------------------------------
// Lookups

/// The first realm entry named `name`.
pub open spec fn spec_realm_named(rs: Seq<RealmModel>, name: Seq<char>) -> Option<RealmModel>
    decreases rs.len(),
{
    if rs.len() == 0 {
        None
    } else if rs[0].realm == name {
        Some(rs[0])
    } else {
        spec_realm_named(rs.drop_first(), name)
    }
}

proof fn lemma_realm_named_at(rs: Seq<RealmModel>, name: Seq<char>, i: int)
    requires
        0 <= i <= rs.len(),
        forall|j: int| 0 <= j < i ==> (#[trigger] rs[j]).realm != name,
        i < rs.len() ==> rs[i].realm == name,
    ensures
        spec_realm_named(rs, name) == if i < rs.len() {
            Some(rs[i])
        } else {
            None::<RealmModel>
        },
    decreases i,
{
    if i > 0 {
        assert forall|j: int| 0 <= j < i - 1 implies (#[trigger] rs.drop_first()[j]).realm != name by {
            assert(rs.drop_first()[j] == rs[j + 1]);
        }
        lemma_realm_named_at(rs.drop_first(), name, i - 1);
    }
}

/// `s` without its trailing dots.
pub open spec fn spec_trim_end_dots(s: Seq<char>) -> Seq<char>
    decreases s.len(),
{
    if s.len() > 0 && s.last() == '.' {
        spec_trim_end_dots(s.drop_last())
    } else {
        s
    }
}

/// The realm of the first suffix of `d` that starts at a dot at or after
/// `i` and is mapped: the longest mapped dotted suffix.
pub open spec fn spec_suffix_realm(dr: Seq<(Seq<char>, Seq<char>)>, d: Seq<char>, i: int) -> Option<Seq<char>>
    decreases d.len() - i,
{
    if i < 0 || i >= d.len() {
        None
    } else if d[i] == '.' && spec_dr_lookup(dr, d.subrange(i, d.len() as int)) is Some {
        spec_dr_lookup(dr, d.subrange(i, d.len() as int))
    } else {
        spec_suffix_realm(dr, d, i + 1)
    }
}

/// The realm of a DNS name: the mapping of the name itself (trailing dots
/// removed), else of its longest mapped suffix that starts with a dot.
pub open spec fn spec_resolve_realm(dr: Seq<(Seq<char>, Seq<char>)>, name: Seq<char>) -> Option<Seq<char>> {
    let d = spec_trim_end_dots(name);
    match spec_dr_lookup(dr, d) {
        Some(r) => Some(r),
        None => spec_suffix_realm(dr, d, 0),
    }
}

fn trim_end_dots(s: &[char]) -> (r: &[char])
    ensures
        r@ == spec_trim_end_dots(s@),
    decreases s@.len(),
{
    if s.len() > 0 && s[s.len() - 1] == '.' {
        let rest = &s[0..s.len() - 1];
        assert(rest@ =~= s@.drop_last());
        trim_end_dots(rest)
    } else {
        s
    }
}

impl Config {
    /// Return the configured realm with this name.
    pub fn realm(&self, realm: &str) -> (r: Option<&Realm>)
        ensures
            match spec_realm_named(self@.realms, realm@) {
                Some(m) => r matches Some(x) && x@ == m,
                None => r is None,
            },
    {
        let ghost rs = self@.realms;
        let mut i: usize = 0;
        while i < self.realms.len()
            invariant
                i <= self.realms@.len(),
                rs == self.realms@.map_values(|r: Realm| r@),
                forall|j: int| 0 <= j < i ==> (#[trigger] rs[j]).realm != realm@,
            decreases self.realms@.len() - i,
        {
            if str_eq(self.realms[i].realm.as_str(), realm) {
                proof {
                    lemma_realm_named_at(rs, realm@, i as int);
                }
                return Some(&self.realms[i]);
            }
            i = i + 1;
        }
        proof {
            lemma_realm_named_at(rs, realm@, i as int);
        }
        None
    }

    /// Resolve a DNS name to a Kerberos realm using `[domain_realm]`: the
    /// exact host name first, then the most specific dotted suffix mapping.
    pub fn resolve_realm(&self, domain_name: &str) -> (r: Option<&str>)
        ensures
            match spec_resolve_realm(self@.domain_realm, domain_name@) {
                Some(x) => r matches Some(s) && s@ == x,
                None => r is None,
            },
    {
        let ghost dr = self@.domain_realm;
        let chars = str_chars(domain_name);
        let d = trim_end_dots(chars.as_slice());
        let k = find_key(&self.domain_realm, d);
        proof {
            lemma_dr_lookup_at(dr, d@, k as int);
        }
        if k < self.domain_realm.len() {
            return Some(self.domain_realm[k].1.as_str());
        }
        let mut i: usize = 0;
        while i < d.len()
            invariant
                i <= d@.len(),
                dr == spec_pairs(self.domain_realm@),
                spec_resolve_realm(dr, domain_name@) == spec_suffix_realm(dr, d@, i as int),
                d@ == spec_trim_end_dots(domain_name@),
            decreases d@.len() - i,
        {
            if d[i] == '.' {
                let suffix = &d[i..d.len()];
                let j = find_key(&self.domain_realm, suffix);
                proof {
                    assert(suffix@ =~= d@.subrange(i as int, d@.len() as int));
                    lemma_dr_lookup_at(dr, suffix@, j as int);
                }
                if j < self.domain_realm.len() {
                    return Some(self.domain_realm[j].1.as_str());
                }
            }
            i = i + 1;
        }
        None
    }

    /// Return KDC hosts configured for a realm. DNS is not consulted here.
    pub fn configured_kdcs(&self, realm: &str) -> (r: Result<&[String], Error>)
        ensures
            match spec_realm_named(self@.realms, realm@) {
                None => r matches Err(Error::NoRealm(s)) && s@ == realm@,
                Some(m) => if m.kdc.len() == 0 {
                    r matches Err(Error::NoKdc(s)) && s@ == realm@
                } else {
                    r matches Ok(v) && spec_string_views(v@) == m.kdc
                },
            },
    {
        match self.realm(realm) {
            None => Err(Error::NoRealm(realm.to_owned())),
            Some(entry) => if entry.kdc.len() == 0 {
                Err(Error::NoKdc(realm.to_owned()))
            } else {
                Ok(entry.kdc.as_slice())
            },
        }
    }

    /// Return password-change servers configured for a realm.
    pub fn configured_kpasswd_servers(&self, realm: &str) -> (r: Result<&[String], Error>)
        ensures
            match spec_realm_named(self@.realms, realm@) {
                None => r matches Err(Error::NoRealm(s)) && s@ == realm@,
                Some(m) => if m.kpasswd_server.len() == 0 {
                    r matches Err(Error::NoKpasswdServer(s)) && s@ == realm@
                } else {
                    r matches Ok(v) && spec_string_views(v@) == m.kpasswd_server
                },
            },
    {
        match self.realm(realm) {
            None => Err(Error::NoRealm(realm.to_owned())),
            Some(entry) => if entry.kpasswd_server.len() == 0 {
                Err(Error::NoKpasswdServer(realm.to_owned()))
            } else {
                Ok(entry.kpasswd_server.as_slice())
            },
        }
    }
}

} // verus!
