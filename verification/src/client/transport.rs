//! KDC endpoints as configured (`host[:port]`, `[v6]:port`) and the
//! settings of the Tokio KDC transport.

use std::time::Duration;
use vstd::prelude::*;

use crate::text::{
    count_char, decimal_string, find_char, parse_u16, spec_all_digits, spec_count, spec_decimal,
    spec_digits_value, spec_find, spec_is_digit, spec_is_whitespace, spec_parse_unsigned, spec_trim,
    spec_trim_start, spec_unsigned_digits, str_chars, string_from_chars, trim_chars,
};

verus! {

/// KDC wire protocol.
#[derive(Clone, Copy, Debug, Eq, Hash, PartialEq)]
pub enum KdcProtocol {
    /// RFC 4120 UDP transport with raw DER request and response datagrams.
    Udp,
    /// RFC 4120 TCP transport with a four-byte big-endian length prefix.
    Tcp,
    /// Transport preference using UDP/TCP fallback.
    Auto,
}

/// Source used to discover a KDC endpoint.
#[derive(Clone, Copy, Debug, Eq, Hash, PartialEq)]
pub enum KdcEndpointSource {
    /// Endpoint came from a `[realms]` `kdc = ...` entry.
    Config,
    /// Endpoint came from `_kerberos._udp` or `_kerberos._tcp` DNS SRV lookup.
    DnsSrv,
}

/// One KDC endpoint discovered for a realm.
#[derive(Clone, Debug, Eq, Hash, PartialEq)]
pub struct KdcEndpoint {
    /// Wire protocol to use for this endpoint.
    pub protocol: KdcProtocol,
    /// Host name or IP literal.
    pub host: String,
    /// Kerberos service port.
    pub port: u16,
    /// How this endpoint was discovered.
    pub source: KdcEndpointSource,
}

/// Transport error for endpoint values.
#[derive(Clone, Debug, Eq, PartialEq)]
pub enum Error {
    /// A configured KDC endpoint could not be parsed.
    InvalidKdcEndpoint(String),
    /// No KDC endpoints were discovered for a realm.
    NoKdcEndpoints {
        /// Realm being discovered.
        realm: String,
        /// Requested wire protocol.
        protocol: KdcProtocol,
    },
    /// The configuration has no entry to serve the request.
    Config(crate::config::Error),
    /// KDC returned no bytes.
    EmptyKdcResponse,
}


/// The last index of `c` in `s`, if any.
pub open spec fn spec_rfind(s: Seq<char>, c: char) -> Option<int> {
    if exists|i: int| 0 <= i < s.len() && s[i] == c {
        Some(
            choose|i: int|
                0 <= i < s.len() && s[i] == c && forall|j: int| i < j < s.len() ==> s[j] != c,
        )
    } else {
        None
    }
}

/// A port: `str::parse::<u16>`.
pub open spec fn spec_port(s: Seq<char>) -> Option<u16> {
    match spec_parse_unsigned(s, u16::MAX as nat) {
        Some(v) => Some(v as u16),
        None => None,
    }
}

/// Host and port of a trimmed `host[:port]` or `[host]:port` value, or
/// `None` when it is refused: empty; a bracketed host that is empty,
/// unclosed or followed by anything but `:port`; a bad port; or a single
/// colon that does not introduce a port.
pub open spec fn spec_kdc_endpoint(v: Seq<char>, default_port: u16) -> Option<(Seq<char>, u16)> {
    if v.len() == 0 {
        None
    } else if v[0] == '[' {
        let rest = v.drop_first();
        match spec_find(rest, ']') {
            None => None,
            Some(close) => {
                let host = rest.subrange(0, close);
                let suffix = rest.subrange(close + 1, rest.len() as int);
                if host.len() == 0 {
                    None
                } else if suffix.len() > 0 && suffix[0] == ':' {
                    match spec_port(suffix.drop_first()) {
                        None => None,
                        Some(p) => Some((host, p)),
                    }
                } else if suffix.len() == 0 {
                    Some((host, default_port))
                } else {
                    None
                }
            },
        }
    } else {
        let split = match spec_rfind(v, ':') {
            None => None,
            Some(q) => {
                let host = v.subrange(0, q);
                let port = v.subrange(q + 1, v.len() as int);
                if host.len() > 0 && port.len() > 0 && crate::text::spec_all_digits(port)
                    && host.last() != ':' {
                    Some((host, port))
                } else {
                    None
                }
            },
        };
        match split {
            Some((host, port)) => match spec_port(port) {
                None => None,
                Some(p) => Some((host, p)),
            },
            None => if spec_count(v, ':') == 1 {
                None
            } else {
                Some((v, default_port))
            },
        }
    }
}

fn rfind_char(s: &[char], c: char) -> (r: Option<usize>)
    ensures
        match spec_rfind(s@, c) {
            Some(i) => r matches Some(j) && j as int == i,
            None => r is None,
        },
        r matches Some(i) ==> i < s@.len(),
{
    let mut i: usize = s.len();
    while i > 0
        invariant
            i <= s@.len(),
            forall|j: int| i <= j < s@.len() ==> s@[j] != c,
        decreases i,
    {
        if s[i - 1] == c {
            proof {
                let k = choose|k: int|
                    0 <= k < s@.len() && s@[k] == c && forall|j: int| k < j < s@.len() ==> s@[j]
                        != c;
                assert(spec_rfind(s@, c) == Some(k));
                if k < i - 1 {
                }
                if k > i - 1 {
                }
            }
            return Some(i - 1);
        }
        i = i - 1;
    }
    None
}

fn all_digits(s: &[char]) -> (r: bool)
    ensures
        r == crate::text::spec_all_digits(s@),
{
    let mut i: usize = 0;
    while i < s.len()
        invariant
            i <= s@.len(),
            forall|j: int| 0 <= j < i ==> crate::text::spec_is_digit(s@[j]),
        decreases s@.len() - i,
    {
        if !('0' <= s[i] && s[i] <= '9') {
            assert(!crate::text::spec_is_digit(s@[i as int]));
            return false;
        }
        i = i + 1;
    }
    true
}

#[verifier::loop_isolation(false)]
#[verifier::spinoff_prover]
#[verifier::rlimit(60)]
fn parse_kdc_endpoint(value: &str, default_port: u16) -> (r: Result<(String, u16), Error>)
    ensures
        match spec_kdc_endpoint(spec_trim(value@), default_port) {
            Some((host, port)) => r matches Ok((h, p)) && h@ == host && p == port,
            None => r matches Err(Error::InvalidKdcEndpoint(v)) && v@ == spec_trim(value@),
        },
{
    let chars = str_chars(value);
    let v = trim_chars(chars.as_slice());
    let trimmed = string_from_chars(v.as_slice());
    if v.len() == 0 {
        return Err(Error::InvalidKdcEndpoint(trimmed));
    }
    if v[0] == '[' {
        let rest = &v.as_slice()[1..v.len()];
        proof {
            assert(rest@ =~= v@.drop_first());
        }
        let close = match find_char(rest, ']') {
            None => return Err(Error::InvalidKdcEndpoint(trimmed)),
            Some(i) => i,
        };
        let host = &rest[0..close];
        let suffix = &rest[close + 1..rest.len()];
        if host.len() == 0 {
            return Err(Error::InvalidKdcEndpoint(trimmed));
        }
        let port = if suffix.len() > 0 && suffix[0] == ':' {
            let digits = &suffix[1..suffix.len()];
            proof {
                assert(digits@ =~= suffix@.drop_first());
            }
            match parse_u16(digits) {
                None => return Err(Error::InvalidKdcEndpoint(trimmed)),
                Some(p) => p,
            }
        } else if suffix.len() == 0 {
            default_port
        } else {
            return Err(Error::InvalidKdcEndpoint(trimmed));
        };
        return Ok((string_from_chars(host), port));
    }
    match rfind_char(v.as_slice(), ':') {
        Some(q) => {
            let host = &v.as_slice()[0..q];
            let port = &v.as_slice()[q + 1..v.len()];
            if host.len() > 0 && port.len() > 0 && all_digits(port) && host[host.len() - 1]
                != ':' {
                return match parse_u16(port) {
                    None => Err(Error::InvalidKdcEndpoint(trimmed)),
                    Some(p) => Ok((string_from_chars(host), p)),
                };
            }
        },
        None => {},
    }
    if count_char(v.as_slice(), ':') == 1 {
        return Err(Error::InvalidKdcEndpoint(trimmed));
    }
    Ok((trimmed, default_port))
}

/// The `host:port` authority of an endpoint; a host holding `:` and not
/// already bracketed is put in brackets.
pub open spec fn spec_authority(host: Seq<char>, port: u16) -> Seq<char> {
    if spec_count(host, ':') > 0 && !(host.len() > 0 && host[0] == '[') {
        seq!['['] + host + seq![']', ':'] + spec_decimal(port as nat)
    } else {
        host + seq![':'] + spec_decimal(port as nat)
    }
}

pub(crate) proof fn lemma_decimal_parses(n: nat)
    ensures
        spec_decimal(n).len() > 0,
        spec_all_digits(spec_decimal(n)),
        spec_digits_value(spec_decimal(n)) == n,
    decreases n,
{
    let d = spec_decimal(n);
    if n < 10 {
        assert(d.drop_last() =~= Seq::<char>::empty());
        let c = ((n + 48) as u32) as char;
        assert(c as u32 == (n + 48) as u32);
        assert(d.last() == c);
        assert(spec_digits_value(d.drop_last()) == 0);
        assert(spec_digits_value(d) == spec_digits_value(d.drop_last()) * 10 + ((d.last() as u32) - 48) as nat);
    } else {
        lemma_decimal_parses(n / 10);
        assert(d.drop_last() =~= spec_decimal(n / 10));
        let c = (((n % 10) + 48) as u32) as char;
        assert(c as u32 == ((n % 10) + 48) as u32);
        assert(d.last() == c);
        assert((n / 10) * 10 + n % 10 == n) by (nonlinear_arith);
        assert(spec_digits_value(d) == spec_digits_value(d.drop_last()) * 10 + ((d.last() as u32) - 48) as nat);
        assert forall|i: int| 0 <= i < d.len() implies spec_is_digit(#[trigger] d[i]) by {
            if i < d.len() - 1 {
                assert(d[i] == spec_decimal(n / 10)[i]);
            }
        }
    }
}

proof fn lemma_port_of_decimal(p: u16)
    ensures
        spec_port(spec_decimal(p as nat)) == Some(p),
{
    lemma_decimal_parses(p as nat);
    let d = spec_decimal(p as nat);
    assert(spec_is_digit(d[0]));
    assert(spec_unsigned_digits(d) == d);
}

proof fn lemma_no_count(s: Seq<char>, c: char)
    ensures
        spec_count(s, c) == 0 <==> forall|i: int| 0 <= i < s.len() ==> s[i] != c,
    decreases s.len(),
{
    if s.len() > 0 {
        lemma_no_count(s.drop_last(), c);
        if spec_count(s, c) == 0 {
            assert forall|i: int| 0 <= i < s.len() implies s[i] != c by {
                if i < s.len() - 1 {
                    assert(s[i] == s.drop_last()[i]);
                }
            }
        }
        if forall|i: int| 0 <= i < s.len() ==> s[i] != c {
            assert forall|i: int| 0 <= i < s.drop_last().len() implies s.drop_last()[i] != c by {
                assert(s.drop_last()[i] == s[i]);
            }
        }
    }
}

proof fn lemma_trimmed_ends(s: Seq<char>)
    requires
        s.len() > 0,
        spec_trim(s) == s,
    ensures
        !spec_is_whitespace(s[0]),
{
    if spec_is_whitespace(s[0]) {
        crate::config::krb5_conf::lemma_trim_shorter(s.drop_first());
        assert(spec_trim(s) == spec_trim(s.drop_first()));
    }
}

/// Parsing an endpoint's authority gives its host and port back, whatever
/// the default port: for a non-empty host without surrounding whitespace
/// and without brackets (IPv6 literals included, which the authority
/// brackets).
pub proof fn lemma_authority_round_trip(host: Seq<char>, port: u16, default_port: u16)
    requires
        host.len() > 0,
        spec_trim(host) == host,
        forall|i: int| 0 <= i < host.len() ==> host[i] != '[' && host[i] != ']',
    ensures
        spec_kdc_endpoint(spec_trim(spec_authority(host, port)), default_port) == Some((host, port)),
{
    lemma_trimmed_ends(host);
    lemma_authority_trimmed(host, port);
    if spec_count(host, ':') > 0 {
        lemma_bracketed_authority(host, port, default_port);
    } else {
        lemma_plain_authority(host, port, default_port);
    }
}

proof fn lemma_authority_trimmed(host: Seq<char>, port: u16)
    requires
        host.len() > 0,
        !spec_is_whitespace(host[0]),
    ensures
        spec_trim(spec_authority(host, port)) == spec_authority(host, port),
{
    let d = spec_decimal(port as nat);
    lemma_decimal_parses(port as nat);
    let a = spec_authority(host, port);
    assert(a.last() == d.last());
    assert(spec_is_digit(d[d.len() - 1]));
    assert(!spec_is_whitespace(a.last()));
    assert(!spec_is_whitespace(a[0]));
    assert(spec_trim_start(a) == a);
}

#[verifier::rlimit(40)]
proof fn lemma_bracketed_authority(host: Seq<char>, port: u16, default_port: u16)
    requires
        host.len() > 0,
        spec_count(host, ':') > 0,
        forall|i: int| 0 <= i < host.len() ==> host[i] != '[' && host[i] != ']',
    ensures
        spec_kdc_endpoint(spec_authority(host, port), default_port) == Some((host, port)),
{
    let d = spec_decimal(port as nat);
    lemma_port_of_decimal(port);
    let a = spec_authority(host, port);
    assert(a[0] == '[');
    let rest = a.drop_first();
    assert(rest =~= host + seq![']', ':'] + d);
    let close = host.len() as int;
    assert(rest[close] == ']');
    let f = choose|i: int| 0 <= i < rest.len() && rest[i] == ']' && forall|j: int| 0 <= j < i ==> rest[j] != ']';
    assert(0 <= f < rest.len() && rest[f] == ']' && forall|j: int| 0 <= j < f ==> rest[j] != ']');
    if f < close {
        assert(rest[f] == host[f]);
    }
    if f > close {
        assert(rest[close] != ']');
    }
    assert(spec_find(rest, ']') == Some(close));
    assert(rest.subrange(0, close) =~= host);
    let suffix = rest.subrange(close + 1, rest.len() as int);
    assert(suffix =~= seq![':'] + d);
    assert(suffix.drop_first() =~= d);
}

proof fn lemma_plain_authority(host: Seq<char>, port: u16, default_port: u16)
    requires
        host.len() > 0,
        spec_count(host, ':') == 0,
        forall|i: int| 0 <= i < host.len() ==> host[i] != '[' && host[i] != ']',
    ensures
        spec_kdc_endpoint(spec_authority(host, port), default_port) == Some((host, port)),
{
    let d = spec_decimal(port as nat);
    lemma_port_of_decimal(port);
    lemma_decimal_parses(port as nat);
    lemma_no_count(host, ':');
    let a = spec_authority(host, port);
    assert(a =~= host + seq![':'] + d);
    assert(a[0] == host[0]);
    let q = host.len() as int;
    assert(a[q] == ':');
    assert forall|i: int| q < i < a.len() implies a[i] != ':' by {
        assert(a[i] == d[i - q - 1]);
        assert(spec_is_digit(d[i - q - 1]));
    }
    let f = choose|i: int| 0 <= i < a.len() && a[i] == ':' && forall|j: int| i < j < a.len() ==> a[j] != ':';
    assert(0 <= f < a.len() && a[f] == ':');
    if f < q {
        assert(a[f] == host[f]);
    }
    assert(spec_rfind(a, ':') == Some(q));
    let h = a.subrange(0, q);
    assert(h =~= host);
    assert(a.subrange(q + 1, a.len() as int) =~= d);
    assert(h.last() == host[q - 1]);
}

impl KdcEndpoint {
    /// Create a configured endpoint from a `host[:port]` value; the default
    /// port is 88.
    pub fn configured(protocol: KdcProtocol, value: &str) -> (r: Result<Self, Error>)
        ensures
            match spec_kdc_endpoint(spec_trim(value@), 88) {
                Some((host, port)) => r matches Ok(e) && e.protocol == protocol && e.host@ == host
                    && e.port == port && e.source == KdcEndpointSource::Config,
                None => r matches Err(Error::InvalidKdcEndpoint(v)) && v@ == spec_trim(value@),
            },
    {
        Self::configured_with_default_port(protocol, value, 88)
    }

    /// Create a configured endpoint from a `host[:port]` value and default
    /// port.
    pub fn configured_with_default_port(protocol: KdcProtocol, value: &str, default_port: u16) -> (r:
        Result<Self, Error>)
        ensures
            match spec_kdc_endpoint(spec_trim(value@), default_port) {
                Some((host, port)) => r matches Ok(e) && e.protocol == protocol && e.host@ == host
                    && e.port == port && e.source == KdcEndpointSource::Config,
                None => r matches Err(Error::InvalidKdcEndpoint(v)) && v@ == spec_trim(value@),
            },
    {
        match parse_kdc_endpoint(value, default_port) {
            Ok((host, port)) => Ok(KdcEndpoint { protocol, host, port, source: KdcEndpointSource::Config }),
            Err(e) => Err(e),
        }
    }

    /// A display-friendly `host:port` authority; a host holding `:` and not
    /// already bracketed is put in brackets.
    pub fn authority(&self) -> (r: String)
        ensures
            r@ == spec_authority(self.host@, self.port),
    {
        let chars = str_chars(self.host.as_str());
        let port = decimal_string(self.port as u64);
        let colon = ":";
        proof {
            reveal_strlit(":");
        }
        assert(colon@ =~= seq![':']);
        let mut out = String::new();
        if count_char(chars.as_slice(), ':') > 0 && !(chars.len() > 0 && chars[0] == '[') {
            let open = "[";
            let close = "]";
            proof {
                reveal_strlit("[");
                reveal_strlit("]");
            }
            out.append(open);
            out.append(self.host.as_str());
            out.append(close);
            out.append(colon);
            out.append(port.as_str());
            assert(out@ =~= seq!['['] + self.host@ + seq![']', ':'] + spec_decimal(self.port as nat));
        } else {
            out.append(self.host.as_str());
            out.append(colon);
            out.append(port.as_str());
        }
        out
    }
}

/// Settings of the Tokio KDC transport: the timeout of each exchange and
/// the largest UDP and TCP responses read.
#[derive(Clone, Copy, Debug)]
pub struct TokioKdcTransport {
    timeout: Duration,
    udp_response_limit: usize,
    tcp_response_limit: usize,
}

/// `std::time::Duration::from_secs`; nothing is stated of the duration.
#[verifier::external_body]
fn seconds(secs: u64) -> Duration {
    Duration::from_secs(secs)
}

impl TokioKdcTransport {
    /// The timeout applied to each KDC exchange.
    pub closed spec fn spec_timeout(self) -> Duration {
        self.timeout
    }

    /// The UDP receive buffer size.
    pub closed spec fn spec_udp_response_limit(self) -> usize {
        self.udp_response_limit
    }

    /// The largest accepted TCP response body.
    pub closed spec fn spec_tcp_response_limit(self) -> usize {
        self.tcp_response_limit
    }

    /// Create a transport with conservative defaults: a five-second timeout,
    /// room for the largest UDP datagram plus one byte, and 16 MiB TCP
    /// responses.
    pub fn new() -> (r: Self)
        ensures
            r.spec_udp_response_limit() == 65_508,
            r.spec_tcp_response_limit() == 16 * 1024 * 1024,
    {
        TokioKdcTransport {
            timeout: seconds(5),
            udp_response_limit: 65_507 + 1,
            tcp_response_limit: 16 * 1024 * 1024,
        }
    }

    /// Override the timeout applied to each KDC exchange.
    pub fn with_timeout(self, timeout: Duration) -> (r: Self)
        ensures
            r.spec_timeout() == timeout,
            r.spec_udp_response_limit() == self.spec_udp_response_limit(),
            r.spec_tcp_response_limit() == self.spec_tcp_response_limit(),
    {
        TokioKdcTransport { timeout, ..self }
    }

    /// Override the UDP receive buffer size.
    pub fn with_udp_response_limit(self, udp_response_limit: usize) -> (r: Self)
        ensures
            r.spec_timeout() == self.spec_timeout(),
            r.spec_udp_response_limit() == udp_response_limit,
            r.spec_tcp_response_limit() == self.spec_tcp_response_limit(),
    {
        TokioKdcTransport { udp_response_limit, ..self }
    }

    /// Override the maximum accepted TCP response body size.
    pub fn with_tcp_response_limit(self, tcp_response_limit: usize) -> (r: Self)
        ensures
            r.spec_timeout() == self.spec_timeout(),
            r.spec_udp_response_limit() == self.spec_udp_response_limit(),
            r.spec_tcp_response_limit() == tcp_response_limit,
    {
        TokioKdcTransport { tcp_response_limit, ..self }
    }

    /// The timeout applied to each KDC exchange.
    pub fn timeout(&self) -> (r: Duration)
        ensures
            r == self.spec_timeout(),
    {
        self.timeout
    }

    /// The UDP receive buffer size.
    pub fn udp_response_limit(&self) -> (r: usize)
        ensures
            r == self.spec_udp_response_limit(),
    {
        self.udp_response_limit
    }

    /// The largest accepted TCP response body.
    pub fn tcp_response_limit(&self) -> (r: usize)
        ensures
            r == self.spec_tcp_response_limit(),
    {
        self.tcp_response_limit
    }
}

} // verus!
