//! Where the KDCs and password-change servers of a realm are: configured
//! endpoints first, DNS SRV records when configuration allows, and the order
//! of SRV records. The lookups themselves are the caller's.

use vstd::prelude::*;

use super::transport::{spec_kdc_endpoint, Error, KdcEndpoint, KdcEndpointSource, KdcProtocol};
use crate::config::sections::spec_realm_named;
use crate::config::Config;
use crate::text::{spec_string_views, spec_trim};

verus! {

/// The KDC error code of a reply too big for UDP.
pub const KRB_ERR_RESPONSE_TOO_BIG: i32 = 52;

/// The endpoints of configured values, each read with the default port;
/// the first value that is no endpoint is refused, trimmed.
pub open spec fn spec_configured_endpoints(values: Seq<Seq<char>>, default_port: u16) -> Result<
    Seq<(Seq<char>, u16)>,
    Seq<char>,
>
    decreases values.len(),
{
    if values.len() == 0 {
        Ok(Seq::empty())
    } else {
        match spec_configured_endpoints(values.drop_last(), default_port) {
            Err(v) => Err(v),
            Ok(es) => match spec_kdc_endpoint(spec_trim(values.last()), default_port) {
                Some(hp) => Ok(es.push(hp)),
                None => Err(spec_trim(values.last())),
            },
        }
    }
}

/// Whether `v` holds the configured endpoints `es` for `protocol`.
pub open spec fn spec_endpoints_are(v: Seq<KdcEndpoint>, es: Seq<(Seq<char>, u16)>, protocol: KdcProtocol) -> bool {
    &&& v.len() == es.len()
    &&& forall|i: int|
        0 <= i < v.len() ==> (#[trigger] v[i]).protocol == protocol && v[i].host@ == es[i].0
            && v[i].port == es[i].1 && v[i].source == KdcEndpointSource::Config
}

proof fn lemma_configured_error_stays(values: Seq<Seq<char>>, port: u16, k: int)
    requires
        0 <= k <= values.len(),
        spec_configured_endpoints(values.subrange(0, k), port) is Err,
    ensures
        spec_configured_endpoints(values, port) == spec_configured_endpoints(values.subrange(0, k), port),
    decreases values.len() - k,
{
    if k < values.len() {
        assert(values.drop_last().subrange(0, k) =~= values.subrange(0, k));
        lemma_configured_error_stays(values.drop_last(), port, k);
    } else {
        assert(values.subrange(0, k) =~= values);
    }
}

/// The endpoints of configured `host[:port]` values.
pub fn configured_endpoints(values: &[String], protocol: KdcProtocol, default_port: u16) -> (r: Result<
    Vec<KdcEndpoint>,
    Error,
>)
    ensures
        match spec_configured_endpoints(spec_string_views(values@), default_port) {
            Ok(es) => r matches Ok(v) && spec_endpoints_are(v@, es, protocol),
            Err(x) => r matches Err(Error::InvalidKdcEndpoint(s)) && s@ == x,
        },
{
    let ghost vs = spec_string_views(values@);
    let mut out: Vec<KdcEndpoint> = Vec::new();
    let mut i: usize = 0;
    assert(vs.subrange(0, 0) =~= Seq::<Seq<char>>::empty());
    while i < values.len()
        invariant
            i <= values@.len(),
            vs == spec_string_views(values@),
            spec_configured_endpoints(vs.subrange(0, i as int), default_port) matches Ok(es)
                && spec_endpoints_are(out@, es, protocol),
        decreases values@.len() - i,
    {
        assert(vs.subrange(0, i + 1).drop_last() =~= vs.subrange(0, i as int));
        assert(vs.subrange(0, i + 1).last() == values@[i as int]@);
        let ghost es = spec_configured_endpoints(vs.subrange(0, i as int), default_port)->Ok_0;
        match KdcEndpoint::configured_with_default_port(protocol, values[i].as_str(), default_port) {
            Ok(e) => {
                let ghost before = out@;
                out.push(e);
                proof {
                    let hp = spec_kdc_endpoint(spec_trim(values@[i as int]@), default_port)->Some_0;
                    assert(spec_endpoints_are(out@, es.push(hp), protocol)) by {
                        assert forall|j: int| 0 <= j < out@.len() implies (#[trigger] out@[j]).protocol
                            == protocol && out@[j].host@ == es.push(hp)[j].0 && out@[j].port == es.push(
                            hp,
                        )[j].1 && out@[j].source == KdcEndpointSource::Config by {
                            if j < before.len() {
                                assert(out@[j] == before[j]);
                            }
                        }
                    }
                }
            },
            Err(e) => {
                proof {
                    lemma_configured_error_stays(vs, default_port, i + 1);
                }
                return Err(e);
            },
        }
        i = i + 1;
    }
    assert(vs.subrange(0, values@.len() as int) =~= vs);
    Ok(out)
}

/// Where to find the servers of a realm: configured endpoints, or a DNS SRV
/// lookup to be made.
#[derive(Clone, Debug, Eq, PartialEq)]
pub enum KdcDiscovery {
    /// Endpoints from the configuration.
    Configured(Vec<KdcEndpoint>),
    /// No endpoints are configured and DNS lookup is enabled.
    Dns,
}

/// Discover KDC endpoints for a realm: the realm's configured KDCs when
/// there are any; else a DNS SRV lookup when `dns_lookup_kdc` is set; else
/// `NoKdcEndpoints` for a configured realm and `NoRealm` for another.
pub fn discover_kdcs(config: &Config, realm: &str, protocol: KdcProtocol) -> (r: Result<KdcDiscovery, Error>)
    ensures
        match spec_realm_named(config@.realms, realm@) {
            Some(m) => if m.kdc.len() > 0 {
                match spec_configured_endpoints(m.kdc, 88) {
                    Ok(es) => r matches Ok(KdcDiscovery::Configured(v)) && spec_endpoints_are(v@, es, protocol),
                    Err(x) => r matches Err(Error::InvalidKdcEndpoint(s)) && s@ == x,
                }
            } else if config.libdefaults.dns_lookup_kdc {
                r matches Ok(KdcDiscovery::Dns)
            } else {
                r matches Err(Error::NoKdcEndpoints { realm: x, protocol: p }) && x@ == realm@ && p == protocol
            },
            None => if config.libdefaults.dns_lookup_kdc {
                r matches Ok(KdcDiscovery::Dns)
            } else {
                r matches Err(Error::Config(crate::config::Error::NoRealm(x))) && x@ == realm@
            },
        },
{
    match config.realm(realm) {
        Some(entry) => {
            if entry.kdc.len() > 0 {
                match configured_endpoints(entry.kdc.as_slice(), protocol, 88) {
                    Ok(v) => Ok(KdcDiscovery::Configured(v)),
                    Err(e) => Err(e),
                }
            } else if config.libdefaults.dns_lookup_kdc {
                Ok(KdcDiscovery::Dns)
            } else {
                Err(Error::NoKdcEndpoints { realm: realm.to_owned(), protocol })
            }
        },
        None => if config.libdefaults.dns_lookup_kdc {
            Ok(KdcDiscovery::Dns)
        } else {
            Err(Error::Config(crate::config::Error::NoRealm(realm.to_owned())))
        },
    }
}

/// Discover password-change endpoints for a realm: the realm's configured
/// kpasswd servers (port 464 by default) when there are any; else a DNS SRV
/// lookup when `dns_lookup_kdc` is set; else `NoKpasswdServer` for a
/// configured realm and `NoRealm` for another.
pub fn discover_kpasswd_servers(config: &Config, realm: &str, protocol: KdcProtocol) -> (r: Result<
    KdcDiscovery,
    Error,
>)
    ensures
        match spec_realm_named(config@.realms, realm@) {
            Some(m) => if m.kpasswd_server.len() > 0 {
                match spec_configured_endpoints(m.kpasswd_server, 464) {
                    Ok(es) => r matches Ok(KdcDiscovery::Configured(v)) && spec_endpoints_are(v@, es, protocol),
                    Err(x) => r matches Err(Error::InvalidKdcEndpoint(s)) && s@ == x,
                }
            } else if config.libdefaults.dns_lookup_kdc {
                r matches Ok(KdcDiscovery::Dns)
            } else {
                r matches Err(Error::Config(crate::config::Error::NoKpasswdServer(x))) && x@ == realm@
            },
            None => if config.libdefaults.dns_lookup_kdc {
                r matches Ok(KdcDiscovery::Dns)
            } else {
                r matches Err(Error::Config(crate::config::Error::NoRealm(x))) && x@ == realm@
            },
        },
{
    match config.realm(realm) {
        Some(entry) => {
            if entry.kpasswd_server.len() > 0 {
                match configured_endpoints(entry.kpasswd_server.as_slice(), protocol, 464) {
                    Ok(v) => Ok(KdcDiscovery::Configured(v)),
                    Err(e) => Err(e),
                }
            } else if config.libdefaults.dns_lookup_kdc {
                Ok(KdcDiscovery::Dns)
            } else {
                Err(Error::Config(crate::config::Error::NoKpasswdServer(realm.to_owned())))
            }
        },
        None => if config.libdefaults.dns_lookup_kdc {
            Ok(KdcDiscovery::Dns)
        } else {
            Err(Error::Config(crate::config::Error::NoRealm(realm.to_owned())))
        },
    }
}

/// Whether the automatic transport tries UDP first: when the request fits
/// the configured UDP preference limit (a limit of 1 or below 0 means TCP
/// first).
pub fn auto_uses_udp_first(config: &Config, request_len: usize) -> (r: bool)
    ensures
        r == (config.libdefaults.udp_preference_limit != 1 && config.libdefaults.udp_preference_limit
            >= 0 && request_len <= config.libdefaults.udp_preference_limit),
{
    let limit = config.libdefaults.udp_preference_limit;
    limit != 1 && limit >= 0 && request_len <= limit as usize
}

/// Whether the automatic transport moves on to its other protocol after the
/// first attempt: when that attempt failed, or when it went over UDP and the
/// KDC answered that the reply is too big (`error_code` is the code of a
/// KRB-ERROR reply, if the reply was one).
pub fn auto_falls_back(first: KdcProtocol, first_failed: bool, error_code: Option<i32>) -> (r: bool)
    ensures
        r == (first_failed || (first == KdcProtocol::Udp && error_code == Some(
            KRB_ERR_RESPONSE_TOO_BIG,
        ))),
{
    if first_failed {
        return true;
    }
    match first {
        KdcProtocol::Udp => match error_code {
            Some(code) => code == KRB_ERR_RESPONSE_TOO_BIG,
            None => false,
        },
        _ => false,
    }
}

/// A KDC reply, refused when empty.
pub fn non_empty_kdc_response(response: Vec<u8>) -> (r: Result<Vec<u8>, Error>)
    ensures
        response@.len() == 0 ==> r == Err::<Vec<u8>, Error>(Error::EmptyKdcResponse),
        response@.len() > 0 ==> (r matches Ok(v) && v@ == response@),
{
    if response.len() == 0 {
        return Err(Error::EmptyKdcResponse);
    }
    Ok(response)
}

// ---------------------------------------------------------------------------
// SRV records

/// One DNS SRV answer.
#[derive(Clone, Debug, Eq, PartialEq)]
pub struct SrvRecord {
    /// Priority: lower first.
    pub priority: u16,
    /// Weight: higher first among equal priorities.
    pub weight: u16,
    /// Target host name as the answer gives it.
    pub target: String,
    /// Port of the service.
    pub port: u16,
}

/// An SRV answer as plain values: priority, weight, target, port.
pub type SrvModel = (u16, u16, Seq<char>, u16);

/// Whether `a` comes before `b` in the order of `str`: lexicographic by
/// code point, a proper prefix first.
pub open spec fn spec_lex_less(a: Seq<char>, b: Seq<char>) -> bool
    decreases a.len(),
{
    if a.len() == 0 {
        b.len() > 0
    } else if b.len() == 0 {
        false
    } else if (a[0] as u32) < (b[0] as u32) {
        true
    } else if a[0] == b[0] {
        spec_lex_less(a.drop_first(), b.drop_first())
    } else {
        false
    }
}

/// The order of SRV answers: priority ascending, then weight descending,
/// then target, then port.
pub open spec fn spec_srv_less(x: SrvModel, y: SrvModel) -> bool {
    ||| x.0 < y.0
    ||| x.0 == y.0 && x.1 > y.1
    ||| x.0 == y.0 && x.1 == y.1 && spec_lex_less(x.2, y.2)
    ||| x.0 == y.0 && x.1 == y.1 && x.2 == y.2 && x.3 < y.3
}

proof fn lemma_lex_irreflexive(a: Seq<char>)
    ensures
        !spec_lex_less(a, a),
    decreases a.len(),
{
    if a.len() > 0 {
        lemma_lex_irreflexive(a.drop_first());
    }
}

proof fn lemma_lex_asymmetric(a: Seq<char>, b: Seq<char>)
    requires
        spec_lex_less(a, b),
    ensures
        !spec_lex_less(b, a),
    decreases a.len(),
{
    if a.len() > 0 && b.len() > 0 && a[0] == b[0] {
        lemma_lex_asymmetric(a.drop_first(), b.drop_first());
    }
}

proof fn lemma_lex_transitive(a: Seq<char>, b: Seq<char>, c: Seq<char>)
    requires
        spec_lex_less(a, b),
        spec_lex_less(b, c),
    ensures
        spec_lex_less(a, c),
    decreases a.len(),
{
    if a.len() > 0 && b.len() > 0 && c.len() > 0 && a[0] == b[0] && b[0] == c[0] {
        lemma_lex_transitive(a.drop_first(), b.drop_first(), c.drop_first());
    }
}

proof fn lemma_srv_asymmetric(x: SrvModel, y: SrvModel)
    requires
        spec_srv_less(x, y),
    ensures
        !spec_srv_less(y, x),
{
    if x.0 == y.0 && x.1 == y.1 && spec_lex_less(x.2, y.2) {
        lemma_lex_asymmetric(x.2, y.2);
    }
    if x.0 == y.0 && x.1 == y.1 && x.2 == y.2 {
        lemma_lex_irreflexive(x.2);
    }
}

proof fn lemma_srv_transitive(x: SrvModel, y: SrvModel, z: SrvModel)
    requires
        spec_srv_less(x, y),
        spec_srv_less(y, z),
    ensures
        spec_srv_less(x, z),
{
    if x.0 == y.0 && y.0 == z.0 && x.1 == y.1 && y.1 == z.1 {
        if spec_lex_less(x.2, y.2) && spec_lex_less(y.2, z.2) {
            lemma_lex_transitive(x.2, y.2, z.2);
        }
    }
}

/// `x` put into `s` after every element it does not come before.
pub open spec fn spec_insert_sorted(s: Seq<SrvModel>, x: SrvModel) -> Seq<SrvModel>
    decreases s.len(),
{
    if s.len() == 0 {
        seq![x]
    } else if spec_srv_less(x, s[0]) {
        seq![x] + s
    } else {
        seq![s[0]] + spec_insert_sorted(s.drop_first(), x)
    }
}

/// `s` sorted by insertion, in the SRV order; answers equal in the order
/// are equal in every field.
pub open spec fn spec_srv_sort(s: Seq<SrvModel>) -> Seq<SrvModel>
    decreases s.len(),
{
    if s.len() == 0 {
        Seq::empty()
    } else {
        spec_insert_sorted(spec_srv_sort(s.drop_last()), s.last())
    }
}

/// Whether no element of `s` comes before an earlier one.
pub open spec fn spec_srv_sorted(s: Seq<SrvModel>) -> bool {
    forall|i: int, j: int| 0 <= i < j < s.len() ==> !spec_srv_less(#[trigger] s[j], #[trigger] s[i])
}

proof fn lemma_insert_contents(s: Seq<SrvModel>, x: SrvModel)
    ensures
        spec_insert_sorted(s, x).len() == s.len() + 1,
        forall|y: SrvModel| #[trigger] spec_insert_sorted(s, x).contains(y) ==> y == x || s.contains(y),
    decreases s.len(),
{
    if s.len() > 0 && !spec_srv_less(x, s[0]) {
        lemma_insert_contents(s.drop_first(), x);
        let t = spec_insert_sorted(s.drop_first(), x);
        assert forall|y: SrvModel| #[trigger] (seq![s[0]] + t).contains(y) implies y == x || s.contains(y) by {
            let k = choose|k: int| 0 <= k < (seq![s[0]] + t).len() && (seq![s[0]] + t)[k] == y;
            if k == 0 {
                assert(s[0] == y);
            } else {
                assert(t[k - 1] == y);
                assert(t.contains(y));
                if y != x {
                    let m = choose|m: int| 0 <= m < s.drop_first().len() && s.drop_first()[m] == y;
                    assert(s[m + 1] == y);
                }
            }
        }
    } else if s.len() > 0 {
        assert forall|y: SrvModel| #[trigger] (seq![x] + s).contains(y) implies y == x || s.contains(y) by {
            let k = choose|k: int| 0 <= k < (seq![x] + s).len() && (seq![x] + s)[k] == y;
            if k > 0 {
                assert(s[k - 1] == y);
            }
        }
    } else {
        assert forall|y: SrvModel| #[trigger] seq![x].contains(y) implies y == x || s.contains(y) by {
            let k = choose|k: int| 0 <= k < seq![x].len() && seq![x][k] == y;
        }
    }
}

proof fn lemma_insert_sorted(s: Seq<SrvModel>, x: SrvModel)
    requires
        spec_srv_sorted(s),
    ensures
        spec_srv_sorted(spec_insert_sorted(s, x)),
    decreases s.len(),
{
    if s.len() == 0 {
    } else if spec_srv_less(x, s[0]) {
        let r = seq![x] + s;
        assert forall|i: int, j: int| 0 <= i < j < r.len() implies !spec_srv_less(#[trigger] r[j], #[trigger] r[i]) by {
            if i == 0 {
                assert(r[j] == s[j - 1]);
                if spec_srv_less(s[j - 1], x) {
                    if j - 1 == 0 {
                        lemma_srv_asymmetric(x, s[0]);
                    } else {
                        lemma_srv_transitive(s[j - 1], x, s[0]);
                        assert(!spec_srv_less(s[j - 1], s[0]));
                    }
                }
            } else {
                assert(r[i] == s[i - 1] && r[j] == s[j - 1]);
            }
        }
    } else {
        let rest = s.drop_first();
        assert(spec_srv_sorted(rest)) by {
            assert forall|i: int, j: int| 0 <= i < j < rest.len() implies !spec_srv_less(#[trigger] rest[j], #[trigger] rest[i]) by {
                assert(rest[i] == s[i + 1] && rest[j] == s[j + 1]);
            }
        }
        lemma_insert_sorted(rest, x);
        lemma_insert_contents(rest, x);
        let t = spec_insert_sorted(rest, x);
        let r = seq![s[0]] + t;
        assert forall|i: int, j: int| 0 <= i < j < r.len() implies !spec_srv_less(#[trigger] r[j], #[trigger] r[i]) by {
            if i == 0 {
                assert(r[j] == t[j - 1]);
                assert(t.contains(t[j - 1]));
                if t[j - 1] != x {
                    let m = choose|m: int| 0 <= m < rest.len() && rest[m] == t[j - 1];
                    assert(rest[m] == s[m + 1]);
                }
            } else {
                assert(r[i] == t[i - 1] && r[j] == t[j - 1]);
            }
        }
    }
}

/// The SRV order sorts.
pub proof fn lemma_srv_sort_sorted(s: Seq<SrvModel>)
    ensures
        spec_srv_sorted(spec_srv_sort(s)),
        spec_srv_sort(s).len() == s.len(),
    decreases s.len(),
{
    if s.len() > 0 {
        lemma_srv_sort_sorted(s.drop_last());
        lemma_insert_sorted(spec_srv_sort(s.drop_last()), s.last());
        lemma_insert_contents(spec_srv_sort(s.drop_last()), s.last());
    }
}

proof fn lemma_insert_at(s: Seq<SrvModel>, x: SrvModel, p: int)
    requires
        0 <= p <= s.len(),
        forall|i: int| 0 <= i < p ==> !spec_srv_less(x, #[trigger] s[i]),
        p < s.len() ==> spec_srv_less(x, s[p]),
    ensures
        spec_insert_sorted(s, x) == s.insert(p, x),
    decreases p,
{
    if p == 0 {
        if s.len() == 0 {
            assert(s.insert(0, x) =~= seq![x]);
        } else {
            assert(s.insert(0, x) =~= seq![x] + s);
        }
    } else {
        assert(!spec_srv_less(x, s[0]));
        let rest = s.drop_first();
        assert forall|i: int| 0 <= i < p - 1 implies !spec_srv_less(x, #[trigger] rest[i]) by {
            assert(rest[i] == s[i + 1]);
        }
        lemma_insert_at(rest, x, p - 1);
        assert(seq![s[0]] + rest.insert(p - 1, x) =~= s.insert(p, x));
    }
}

/// An answer's target without trailing dots, when something is left.
pub open spec fn spec_srv_candidates(records: Seq<SrvModel>) -> Seq<SrvModel>
    decreases records.len(),
{
    if records.len() == 0 {
        Seq::empty()
    } else {
        let rest = spec_srv_candidates(records.drop_last());
        let r = records.last();
        let t = crate::config::sections::spec_trim_end_dots(r.2);
        if t.len() > 0 && t != "."@ {
            rest.push((r.0, r.1, t, r.3))
        } else {
            rest
        }
    }
}

struct SrvItem {
    priority: u16,
    weight: u16,
    target: Vec<char>,
    port: u16,
}

impl View for SrvItem {
    type V = SrvModel;

    closed spec fn view(&self) -> SrvModel {
        (self.priority, self.weight, self.target@, self.port)
    }
}

fn lex_less(a: &[char], b: &[char]) -> (r: bool)
    ensures
        r == spec_lex_less(a@, b@),
{
    let mut i: usize = 0;
    assert(a@.subrange(0, a@.len() as int) =~= a@);
    assert(b@.subrange(0, b@.len() as int) =~= b@);
    while i < a.len() && i < b.len() && a[i] == b[i]
        invariant
            i <= a@.len(),
            i <= b@.len(),
            spec_lex_less(a@, b@) == spec_lex_less(
                a@.subrange(i as int, a@.len() as int),
                b@.subrange(i as int, b@.len() as int),
            ),
        decreases a@.len() - i,
    {
        let ghost sa = a@.subrange(i as int, a@.len() as int);
        let ghost sb = b@.subrange(i as int, b@.len() as int);
        assert(sa.drop_first() =~= a@.subrange(i + 1, a@.len() as int));
        assert(sb.drop_first() =~= b@.subrange(i + 1, b@.len() as int));
        i = i + 1;
    }
    let ghost sa = a@.subrange(i as int, a@.len() as int);
    let ghost sb = b@.subrange(i as int, b@.len() as int);
    if i == a.len() {
        assert(sa.len() == 0);
        i < b.len()
    } else if i == b.len() {
        false
    } else {
        assert(sa[0] == a@[i as int] && sb[0] == b@[i as int]);
        (a[i] as u32) < (b[i] as u32)
    }
}

#[verifier::loop_isolation(false)]
fn srv_less(x: &SrvItem, y: &SrvItem) -> (r: bool)
    ensures
        r == spec_srv_less(x@, y@),
{
    if x.priority != y.priority {
        return x.priority < y.priority;
    }
    if x.weight != y.weight {
        return x.weight > y.weight;
    }
    if lex_less(x.target.as_slice(), y.target.as_slice()) {
        return true;
    }
    if x.target.len() == y.target.len() {
        let mut i: usize = 0;
        while i < x.target.len()
            invariant
                i <= x.target@.len(),
                x.target@.len() == y.target@.len(),
                forall|j: int| 0 <= j < i ==> x.target@[j] == y.target@[j],
            decreases x.target@.len() - i,
        {
            if x.target[i] != y.target[i] {
                assert(x.target@[i as int] != y.target@[i as int]);
                assert(x.target@ != y.target@);
                assert(!spec_srv_less(x@, y@));
                return false;
            }
            i = i + 1;
        }
        assert(x.target@ =~= y.target@);
        x.port < y.port
    } else {
        false
    }
}

/// The endpoints of SRV answers: targets without trailing dots, empty ones
/// dropped, in the SRV order, over `protocol`.
pub fn srv_endpoints(records: &[SrvRecord], protocol: KdcProtocol) -> (r: Vec<KdcEndpoint>)
    ensures
        r@.len() == spec_srv_sort(spec_srv_candidates(records@.map_values(|x: SrvRecord| (x.priority, x.weight, x.target@, x.port)))).len(),
        forall|i: int|
            0 <= i < r@.len() ==> {
                let m = spec_srv_sort(
                    spec_srv_candidates(records@.map_values(|x: SrvRecord| (x.priority, x.weight, x.target@, x.port))),
                )[i];
                &&& (#[trigger] r@[i]).host@ == m.2
                &&& r@[i].port == m.3
                &&& r@[i].protocol == protocol
                &&& r@[i].source == KdcEndpointSource::DnsSrv
            },
{
    let ghost ms = records@.map_values(|x: SrvRecord| (x.priority, x.weight, x.target@, x.port));
    let mut items: Vec<SrvItem> = Vec::new();
    let mut i: usize = 0;
    assert(ms.subrange(0, 0) =~= Seq::<SrvModel>::empty());
    while i < records.len()
        invariant
            i <= records@.len(),
            ms == records@.map_values(|x: SrvRecord| (x.priority, x.weight, x.target@, x.port)),
            items@.map_values(|t: SrvItem| t@) == spec_srv_sort(spec_srv_candidates(ms.subrange(0, i as int))),
            spec_srv_sorted(items@.map_values(|t: SrvItem| t@)),
        decreases records@.len() - i,
    {
        let ghost before = items@.map_values(|t: SrvItem| t@);
        assert(ms.subrange(0, i + 1).drop_last() =~= ms.subrange(0, i as int));
        assert(ms.subrange(0, i + 1).last() == ms[i as int]);
        let rec = &records[i];
        assert(ms[i as int] == (rec.priority, rec.weight, rec.target@, rec.port));
        let chars = crate::text::str_chars(rec.target.as_str());
        let t = trim_end_dots_chars(chars.as_slice());
        let ghost cands = spec_srv_candidates(ms.subrange(0, i as int));
        let is_dot = t.len() == 1 && t[0] == '.';
        proof {
            reveal_strlit(".");
            assert(is_dot == (t@ == "."@)) by {
                if t@.len() == 1 && t@[0] == '.' {
                    assert(t@ =~= "."@);
                }
            }
        }
        if t.len() > 0 && !is_dot {
            let x = SrvItem {
                priority: rec.priority,
                weight: rec.weight,
                target: vstd::slice::slice_to_vec(t),
                port: rec.port,
            };
            let mut p: usize = 0;
            while p < items.len() && !srv_less(&x, &items[p])
                invariant
                    p <= items@.len(),
                    forall|k: int| 0 <= k < p ==> !spec_srv_less(x@, #[trigger] items@[k]@),
                decreases items@.len() - p,
            {
                p = p + 1;
            }
            proof {
                assert forall|k: int| 0 <= k < p implies !spec_srv_less(x@, #[trigger] before[k]) by {
                    assert(before[k] == items@[k]@);
                }
                if p < items@.len() {
                    assert(before[p as int] == items@[p as int]@);
                }
                lemma_insert_at(before, x@, p as int);
                lemma_insert_sorted(before, x@);
            }
            let ghost xv = x@;
            items.insert(p, x);
            assert(items@.map_values(|t: SrvItem| t@) =~= before.insert(p as int, xv));
            proof {
                let c2 = spec_srv_candidates(ms.subrange(0, i + 1));
                assert(c2 == cands.push(xv));
                assert(c2.drop_last() =~= cands);
                assert(spec_srv_sort(c2) == spec_insert_sorted(spec_srv_sort(cands), xv));
            }
        } else {
            assert(spec_srv_candidates(ms.subrange(0, i + 1)) == cands);
        }
        i = i + 1;
    }
    assert(ms.subrange(0, records@.len() as int) =~= ms);
    let ghost sorted = items@.map_values(|t: SrvItem| t@);
    let mut out: Vec<KdcEndpoint> = Vec::new();
    let mut j: usize = 0;
    while j < items.len()
        invariant
            j <= items@.len(),
            sorted == items@.map_values(|t: SrvItem| t@),
            out@.len() == j,
            forall|k: int|
                0 <= k < j ==> (#[trigger] out@[k]).host@ == sorted[k].2 && out@[k].port == sorted[k].3
                    && out@[k].protocol == protocol && out@[k].source == KdcEndpointSource::DnsSrv,
        decreases items@.len() - j,
    {
        let it = &items[j];
        assert(sorted[j as int] == it@);
        out.push(
            KdcEndpoint {
                protocol,
                host: crate::text::string_from_chars(it.target.as_slice()),
                port: it.port,
                source: KdcEndpointSource::DnsSrv,
            },
        );
        j = j + 1;
    }
    out
}

fn trim_end_dots_chars(s: &[char]) -> (r: &[char])
    ensures
        r@ == crate::config::sections::spec_trim_end_dots(s@),
    decreases s@.len(),
{
    if s.len() > 0 && s[s.len() - 1] == '.' {
        let rest = &s[0..s.len() - 1];
        assert(rest@ =~= s@.drop_last());
        trim_end_dots_chars(rest)
    } else {
        s
    }
}

/// The endpoints of a DNS lookup, refused when there are none.
pub fn kdcs_from_dns(realm: &str, protocol: KdcProtocol, endpoints: Vec<KdcEndpoint>) -> (r: Result<
    Vec<KdcEndpoint>,
    Error,
>)
    ensures
        endpoints@.len() == 0 ==> (r matches Err(Error::NoKdcEndpoints { realm: x, protocol: p }) && x@
            == realm@ && p == protocol),
        endpoints@.len() > 0 ==> r == Ok::<Vec<KdcEndpoint>, Error>(endpoints),
{
    if endpoints.len() == 0 {
        Err(Error::NoKdcEndpoints { realm: realm.to_owned(), protocol })
    } else {
        Ok(endpoints)
    }
}

} // verus!
