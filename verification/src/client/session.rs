//! Ticket sessions in time: when a session is valid, usable or due for a
//! refresh, which of two sessions to keep, and sessions read back from a
//! credential cache.

use vstd::prelude::*;

use vstd::utf8::encode_utf8;

use super::principal::{Principal, PrincipalModel};
use super::{
    spec_ccache_principal, spec_session_credential, AsRepSession, Error, KdcProtocol,
    PreauthKeyInfo, TokioClientDiagnostics, UnixTime,
};
use crate::ccache;
use crate::config::krb5_conf::extend_chars;
use crate::config::LibDefaults;
use crate::crypto::{spec_etype_from_id, KerberosEtype};
use crate::keytab::{EncryptionKey, EncryptionKeyModel, EntryModel, Keytab};
use crate::text::{
    eq_ignore_ascii_case, spec_eq_ignore_ascii_case, copy_string, copy_strings, decimal_string, spec_decimal, spec_string_views, str_chars,
    string_from_chars,
};

verus! {

/// Nanoseconds in a second.
pub const NANOS_PER_SECOND: i128 = 1_000_000_000;

/// A session is refreshed once less than a sixth of its lifetime remains.
pub const SESSION_REFRESH_DIVISOR: i128 = 6;

/// A time as nanoseconds from the Unix epoch.
pub open spec fn spec_nanos(t: UnixTime) -> int {
    t.seconds as int * 1_000_000_000 + t.nanos as int
}

fn nanos(t: UnixTime) -> (r: i128)
    ensures
        r == spec_nanos(t),
{
    proof {
        assert(-0x8000_0000_0000_0000 * 1_000_000_000 <= t.seconds as int * 1_000_000_000
            <= 0x7fff_ffff_ffff_ffff * 1_000_000_000) by (nonlinear_arith);
    }
    (t.seconds as i128) * NANOS_PER_SECOND + (t.nanos as i128)
}

/// Whether a session is valid at `now`: started, and not yet ended.
pub open spec fn spec_valid_at(s: AsRepSession, now: UnixTime) -> bool {
    spec_nanos(s.start_time) <= spec_nanos(now) < spec_nanos(s.end_time)
}

/// Whether a session can still be renewed at `now`.
pub open spec fn spec_renewable_at(s: AsRepSession, now: UnixTime) -> bool {
    match s.renew_till {
        Some(t) => spec_nanos(now) < spec_nanos(t),
        None => false,
    }
}

/// Whether a session is due for a refresh at `now`: it has ended, its
/// lifetime (end minus authentication time) is not positive, or at most a
/// sixth of that lifetime remains.
pub open spec fn spec_refresh_due_at(s: AsRepSession, now: UnixTime) -> bool {
    let e = spec_nanos(s.end_time);
    let a = spec_nanos(s.auth_time);
    let n = spec_nanos(now);
    if n >= e {
        true
    } else if e <= a {
        true
    } else {
        e - n <= (e - a) / 6
    }
}

/// Nanoseconds from `now` until a session falls due for a refresh: zero
/// when it is due already.
pub open spec fn spec_refresh_delay_at(s: AsRepSession, now: UnixTime) -> int {
    if spec_refresh_due_at(s, now) {
        0
    } else {
        let e = spec_nanos(s.end_time);
        let a = spec_nanos(s.auth_time);
        let refresh_at = e - (e - a) / 6;
        if refresh_at > spec_nanos(now) {
            refresh_at - spec_nanos(now)
        } else {
            0
        }
    }
}

/// Whether a session is valid at `now`.
pub fn session_valid_at(session: &AsRepSession, now: UnixTime) -> (r: bool)
    ensures
        r == spec_valid_at(*session, now),
{
    let n = nanos(now);
    nanos(session.start_time) <= n && n < nanos(session.end_time)
}

/// Whether a session can still be renewed at `now`.
pub fn session_renewable_at(session: &AsRepSession, now: UnixTime) -> (r: bool)
    ensures
        r == spec_renewable_at(*session, now),
{
    match session.renew_till {
        Some(t) => nanos(now) < nanos(t),
        None => false,
    }
}

/// Whether a session is valid or renewable at `now`.
pub fn session_usable_at(session: &AsRepSession, now: UnixTime) -> (r: bool)
    ensures
        r == (spec_valid_at(*session, now) || spec_renewable_at(*session, now)),
{
    session_valid_at(session, now) || session_renewable_at(session, now)
}

/// Whether a session is due for a refresh at `now`.
pub fn session_refresh_due_at(session: &AsRepSession, now: UnixTime) -> (r: bool)
    ensures
        r == spec_refresh_due_at(*session, now),
{
    let e = nanos(session.end_time);
    let a = nanos(session.auth_time);
    let n = nanos(now);
    if n >= e {
        return true;
    }
    if e <= a {
        return true;
    }
    e - n <= (e - a) / SESSION_REFRESH_DIVISOR
}

/// Nanoseconds from `now` until a session falls due for a refresh.
pub fn session_refresh_delay_at(session: &AsRepSession, now: UnixTime) -> (r: u128)
    ensures
        r == spec_refresh_delay_at(*session, now),
{
    if session_refresh_due_at(session, now) {
        return 0;
    }
    let e = nanos(session.end_time);
    let a = nanos(session.auth_time);
    let n = nanos(now);
    let refresh_at = e - (e - a) / SESSION_REFRESH_DIVISOR;
    if refresh_at > n {
        (refresh_at - n) as u128
    } else {
        0
    }
}

/// Whether to keep `current` over `candidate` at `now`: the valid one when
/// only one is valid, else the one that ends later, `current` on a tie.
pub open spec fn spec_prefer_current(current: AsRepSession, candidate: AsRepSession, now: UnixTime) -> bool {
    let cv = spec_valid_at(current, now);
    let nv = spec_valid_at(candidate, now);
    if cv && !nv {
        true
    } else if !cv && nv {
        false
    } else {
        spec_nanos(current.end_time) >= spec_nanos(candidate.end_time)
    }
}

/// Whether to keep `current` over `candidate` at `now`.
pub fn prefer_current_session_at(current: &AsRepSession, candidate: &AsRepSession, now: UnixTime) -> (r:
    bool)
    ensures
        r == spec_prefer_current(*current, *candidate, now),
{
    let cv = session_valid_at(current, now);
    let nv = session_valid_at(candidate, now);
    if cv && !nv {
        true
    } else if !cv && nv {
        false
    } else {
        nanos(current.end_time) >= nanos(candidate.end_time)
    }
}

/// The session to keep at `now`: `current` when there is one and it is
/// preferred, else `candidate`.
pub fn preferred_session_at(current: Option<AsRepSession>, candidate: AsRepSession, now: UnixTime) -> (r:
    AsRepSession)
    ensures
        r == match current {
            Some(c) => if spec_prefer_current(c, candidate, now) {
                c
            } else {
                candidate
            },
            None => candidate,
        },
{
    match current {
        Some(c) => if prefer_current_session_at(&c, &candidate, now) {
            c
        } else {
            candidate
        },
        None => candidate,
    }
}

/// A refresh is never waited for once it is due, and is due exactly when
/// no wait is left: the delay is zero if and only if the session is due.
pub proof fn lemma_refresh_delay_zero_iff_due(s: AsRepSession, now: UnixTime)
    ensures
        spec_refresh_delay_at(s, now) == 0 <==> spec_refresh_due_at(s, now),
        spec_refresh_delay_at(s, now) >= 0,
{
    if !spec_refresh_due_at(s, now) {
        let e = spec_nanos(s.end_time);
        let a = spec_nanos(s.auth_time);
        let n = spec_nanos(now);
        assert(e - n > (e - a) / 6);
        assert(e - (e - a) / 6 > n);
    }
}

/// A session that has ended is always due for a refresh.
pub proof fn lemma_ended_session_due(s: AsRepSession, now: UnixTime)
    requires
        spec_nanos(now) >= spec_nanos(s.end_time),
    ensures
        spec_refresh_due_at(s, now),
        !spec_valid_at(s, now),
{
}

/// Of two sessions of which exactly one is valid at `now`, the valid one
/// is kept; otherwise the kept one ends no earlier than the other.
pub proof fn lemma_preferred_session(current: AsRepSession, candidate: AsRepSession, now: UnixTime)
    ensures
        ({
            let kept = if spec_prefer_current(current, candidate, now) {
                current
            } else {
                candidate
            };
            &&& (spec_valid_at(current, now) || spec_valid_at(candidate, now)) ==> spec_valid_at(kept, now)
            &&& spec_valid_at(current, now) == spec_valid_at(candidate, now) ==> spec_nanos(kept.end_time)
                >= spec_nanos(current.end_time) && spec_nanos(kept.end_time) >= spec_nanos(
                candidate.end_time,
            )
        }),
{
}

// ---------------------------------------------------------------------------
// Principals and sessions

/// A session as plain values.
pub struct SessionModel {
    pub client: PrincipalModel,
    pub service: PrincipalModel,
    pub session_key: EncryptionKeyModel,
    pub ticket: Seq<u8>,
    pub ticket_flags: Seq<u8>,
    pub auth_time: UnixTime,
    pub start_time: UnixTime,
    pub end_time: UnixTime,
    pub renew_till: Option<UnixTime>,
    pub key_expiration: Option<UnixTime>,
}

impl View for AsRepSession {
    type V = SessionModel;

    open spec fn view(&self) -> SessionModel {
        SessionModel {
            client: self.client@,
            service: self.service@,
            session_key: self.session_key@,
            ticket: self.ticket@,
            ticket_flags: self.ticket_flags@,
            auth_time: self.auth_time,
            start_time: self.start_time,
            end_time: self.end_time,
            renew_till: self.renew_till,
            key_expiration: self.key_expiration,
        }
    }
}

/// Whether two principals have the same realm and components, whatever
/// their name types.
pub open spec fn spec_principal_matches(left: PrincipalModel, right: PrincipalModel) -> bool {
    left.realm == right.realm && left.components == right.components
}

/// Whether two principals have the same realm and components.
pub fn principal_matches(left: &Principal, right: &Principal) -> (r: bool)
    ensures
        r == spec_principal_matches(left@, right@),
{
    left.realm == right.realm && ccache::strings_eq(&left.components, &right.components)
}

/// The key of a service in a ticket cache: the realm, then each component
/// after a NUL character.
pub open spec fn spec_nul_prefixed(components: Seq<Seq<char>>) -> Seq<char>
    decreases components.len(),
{
    if components.len() == 0 {
        Seq::empty()
    } else {
        spec_nul_prefixed(components.drop_last()) + seq!['\0'] + components.last()
    }
}

/// The ticket cache key of a service principal.
pub fn service_cache_key(service: &Principal) -> (r: String)
    ensures
        r@ == service@.realm + spec_nul_prefixed(service@.components),
{
    let ghost comps = service@.components;
    let mut out: Vec<char> = str_chars(service.realm.as_str());
    let mut i: usize = 0;
    while i < service.components.len()
        invariant
            i <= service.components@.len(),
            comps == service@.components,
            out@ == service@.realm + spec_nul_prefixed(comps.subrange(0, i as int)),
        decreases service.components@.len() - i,
    {
        let ghost before = out@;
        assert(comps.subrange(0, i + 1).drop_last() =~= comps.subrange(0, i as int));
        out.push('\0');
        let c = str_chars(service.components[i].as_str());
        let mut j: usize = 0;
        while j < c.len()
            invariant
                j <= c@.len(),
                out@ == before + seq!['\0'] + c@.subrange(0, j as int),
            decreases c@.len() - j,
        {
            out.push(c[j]);
            j = j + 1;
            assert(out@ =~= before + seq!['\0'] + c@.subrange(0, j as int));
        }
        assert(c@.subrange(0, c@.len() as int) =~= c@);
        assert(out@ =~= service@.realm + spec_nul_prefixed(comps.subrange(0, i + 1)));
        i = i + 1;
    }
    assert(comps.subrange(0, comps.len() as int) =~= comps);
    string_from_chars(out.as_slice())
}

/// Whether a principal names a ticket-granting service: `krbtgt` (in any
/// ASCII case) followed by at least one more component.
pub open spec fn spec_is_tgt_principal(p: PrincipalModel) -> bool {
    p.components.len() >= 2 && spec_eq_ignore_ascii_case(p.components[0], "krbtgt"@)
}

/// Whether a principal names a ticket-granting service.
pub fn is_tgt_principal(principal: &Principal) -> (r: bool)
    ensures
        r == spec_is_tgt_principal(principal@),
{
    if principal.components.len() < 2 {
        return false;
    }
    let first = str_chars(principal.components[0].as_str());
    let tgt = str_chars("krbtgt");
    eq_ignore_ascii_case(first.as_slice(), tgt.as_slice())
}

/// The realm a ticket-granting session is for: its service's last
/// component.
pub fn tgt_realm(session: &AsRepSession) -> (r: Option<String>)
    ensures
        match r {
            Some(x) => spec_is_tgt_principal(session.service@) && x@ == session.service@.components.last(),
            None => !spec_is_tgt_principal(session.service@),
        },
{
    if is_tgt_principal(&session.service) {
        let n = session.service.components.len();
        Some(copy_string(&session.service.components[n - 1]))
    } else {
        None
    }
}

/// A time of whole seconds after the epoch.
pub fn system_time_from_u32_seconds(seconds: u32) -> (r: UnixTime)
    ensures
        r == (UnixTime { seconds: seconds as i64, nanos: 0 }),
{
    UnixTime { seconds: seconds as i64, nanos: 0 }
}

/// A credential-cache principal as a client principal.
pub open spec fn spec_client_principal(p: ccache::PrincipalModel) -> PrincipalModel {
    PrincipalModel { realm: p.realm, name_type: p.name_type, components: p.components }
}

/// A credential-cache principal as a client principal.
pub fn client_principal_from_ccache(value: &ccache::Principal) -> (r: Principal)
    ensures
        r@ == spec_client_principal(value@),
{
    Principal::new(copy_string(&value.realm), value.name_type, copy_strings(&value.components))
}

/// The session a credential-cache entry holds: a zero start time means the
/// authentication time, and a zero renew-till time none.
pub open spec fn spec_credential_session(c: ccache::CredentialModel) -> SessionModel {
    let auth = UnixTime { seconds: c.times.auth_time as i64, nanos: 0 };
    SessionModel {
        client: spec_client_principal(c.client),
        service: spec_client_principal(c.server),
        session_key: EncryptionKeyModel { etype: c.key.etype, value: c.key.value },
        ticket: c.ticket,
        ticket_flags: c.ticket_flags,
        auth_time: auth,
        start_time: if c.times.start_time == 0 {
            auth
        } else {
            UnixTime { seconds: c.times.start_time as i64, nanos: 0 }
        },
        end_time: UnixTime { seconds: c.times.end_time as i64, nanos: 0 },
        renew_till: if c.times.renew_till == 0 {
            None
        } else {
            Some(UnixTime { seconds: c.times.renew_till as i64, nanos: 0 })
        },
        key_expiration: None,
    }
}

/// The session a credential-cache entry holds.
pub fn ccache_credential_session(credential: &ccache::Credential) -> (r: AsRepSession)
    ensures
        r@ == spec_credential_session(credential@),
{
    let auth_time = system_time_from_u32_seconds(credential.times.auth_time);
    let start_time = if credential.times.start_time == 0 {
        auth_time
    } else {
        system_time_from_u32_seconds(credential.times.start_time)
    };
    let renew_till = if credential.times.renew_till != 0 {
        Some(system_time_from_u32_seconds(credential.times.renew_till))
    } else {
        None
    };
    AsRepSession {
        client: client_principal_from_ccache(&credential.client),
        service: client_principal_from_ccache(&credential.server),
        session_key: EncryptionKey {
            etype: credential.key.etype,
            value: vstd::slice::slice_to_vec(credential.key.value.as_slice()),
        },
        ticket: vstd::slice::slice_to_vec(credential.ticket.as_slice()),
        ticket_flags: credential.ticket_flags,
        auth_time,
        start_time,
        end_time: system_time_from_u32_seconds(credential.times.end_time),
        renew_till,
        key_expiration: None,
    }
}

/// A session written to a credential cache reads back as the same
/// session, when its times are whole seconds that fit the cache (else it
/// cannot be written), it has no key expiration (the cache keeps none), its
/// start time is not the epoch unless it equals the authentication time,
/// and it is not renewable only until the epoch (the cache writes an absent
/// renew-till time as zero).
pub proof fn lemma_session_ccache_roundtrip(s: AsRepSession)
    requires
        spec_session_credential(s) is Some,
        s.key_expiration is None,
        s.start_time.seconds == 0 ==> s.start_time == s.auth_time,
        s.renew_till != Some(UnixTime { seconds: 0, nanos: 0 }),
    ensures
        spec_credential_session(spec_session_credential(s)->Some_0) == s@,
{
    let c = spec_session_credential(s)->Some_0;
    assert(spec_client_principal(spec_ccache_principal(s.client@)) == s.client@);
    assert(spec_client_principal(spec_ccache_principal(s.service@)) == s.service@);
    match s.renew_till {
        Some(t) => {
            assert(t.seconds != 0);
        },
        None => {},
    }
}

// ---------------------------------------------------------------------------
// Diagnostics

/// The encryption types of the entries of a realm.
pub open spec fn spec_realm_etypes(es: Seq<EntryModel>, realm: Seq<char>) -> Set<i32>
    decreases es.len(),
{
    if es.len() == 0 {
        Set::empty()
    } else if es.last().principal.realm == realm {
        spec_realm_etypes(es.drop_last(), realm).insert(es.last().key.etype)
    } else {
        spec_realm_etypes(es.drop_last(), realm)
    }
}

/// The encryption types of the keytab entries of a realm, sorted, each
/// once.
pub fn keytab_realm_enctypes(keytab: &Keytab, realm: &str) -> (r: Vec<i32>)
    ensures
        forall|i: int, j: int| 0 <= i < j < r@.len() ==> r@[i] < r@[j],
        forall|x: i32| r@.contains(x) <==> spec_realm_etypes(keytab@.entries, realm@).contains(x),
{
    let entries = keytab.entries();
    let ghost es = keytab@.entries;
    let mut out: Vec<i32> = Vec::new();
    let mut i: usize = 0;
    while i < entries.len()
        invariant
            i <= entries@.len(),
            es == entries@.map_values(|e: crate::keytab::Entry| e@),
            forall|a: int, b: int| 0 <= a < b < out@.len() ==> out@[a] < out@[b],
            forall|x: i32|
                out@.contains(x) <==> spec_realm_etypes(es.subrange(0, i as int), realm@).contains(x),
        decreases entries@.len() - i,
    {
        let e = &entries[i];
        assert(es[i as int] == e@);
        assert(es.subrange(0, i + 1).drop_last() =~= es.subrange(0, i as int));
        let ghost before_set = spec_realm_etypes(es.subrange(0, i as int), realm@);
        if crate::text::str_eq(e.principal.realm.as_str(), realm) {
            let x = e.key.etype;
            assert(spec_realm_etypes(es.subrange(0, i + 1), realm@) == before_set.insert(x));
            let mut p: usize = 0;
            while p < out.len() && out[p] < x
                invariant
                    p <= out@.len(),
                    forall|a: int| 0 <= a < p ==> out@[a] < x,
                decreases out@.len() - p,
            {
                p = p + 1;
            }
            if p < out.len() && out[p] == x {
                assert(out@[p as int] == x);
                assert(out@.contains(x));
                assert forall|y: i32| out@.contains(y) <==> before_set.insert(x).contains(y) by {
                    if y == x {
                        assert(out@.contains(x));
                    }
                }
            } else {
                let ghost before = out@;
                assert(forall|y: i32| before.contains(y) <==> before_set.contains(y));
                out.insert(p, x);
                assert(out@ =~= before.subrange(0, p as int).push(x) + before.subrange(p as int, before.len() as int));
                assert forall|y: i32| out@.contains(y) <==> (before.contains(y) || y == x) by {
                    if out@.contains(y) {
                        let k = choose|k: int| 0 <= k < out@.len() && out@[k] == y;
                        if k < p {
                            assert(before[k] == y);
                        } else if k > p {
                            assert(before[k - 1] == y);
                        }
                    }
                    if before.contains(y) {
                        let k = choose|k: int| 0 <= k < before.len() && before[k] == y;
                        if k < p {
                            assert(out@[k] == y);
                        } else {
                            assert(out@[k + 1] == y);
                        }
                    }
                    if y == x {
                        assert(out@[p as int] == y);
                    }
                }
                assert forall|y: i32| out@.contains(y) <==> before_set.insert(x).contains(y) by {
                    assert(out@.contains(y) <==> (before.contains(y) || y == x));
                    assert(before.contains(y) <==> before_set.contains(y));
                }
                assert forall|a: int, b: int| 0 <= a < b < out@.len() implies out@[a] < out@[b] by {
                    if b < p {
                        assert(out@[a] == before[a] && out@[b] == before[b]);
                    } else if b == p {
                        assert(out@[a] == before[a]);
                    } else if a < p {
                        assert(out@[a] == before[a] && out@[b] == before[b - 1]);
                        if p < before.len() {
                            assert(before[p as int] >= x);
                            assert(before[p as int] != x);
                        }
                    } else if a == p {
                        assert(out@[b] == before[b - 1]);
                        assert(before[p as int] > x);
                    } else {
                        assert(out@[a] == before[a - 1] && out@[b] == before[b - 1]);
                    }
                }
            }
        } else {
            assert(spec_realm_etypes(es.subrange(0, i + 1), realm@) == before_set);
        }
        i = i + 1;
    }
    assert(es.subrange(0, entries@.len() as int) =~= es);
    out
}

/// An `i32` written in decimal, with a leading `-` when negative.
pub open spec fn spec_i32_decimal(x: i32) -> Seq<char> {
    if x < 0 {
        seq!['-'] + spec_decimal((0 - x) as nat)
    } else {
        spec_decimal(x as nat)
    }
}

fn push_i32_decimal(out: &mut Vec<char>, x: i32)
    ensures
        final(out)@ == old(out)@ + spec_i32_decimal(x),
{
    if x < 0 {
        out.push('-');
        let v: u64 = (0 - (x as i64)) as u64;
        let d = decimal_string(v);
        extend_chars(out, d.as_str());
    } else {
        let d = decimal_string(x as u64);
        extend_chars(out, d.as_str());
    }
}

/// The complaint about a configured encryption type missing from the keytab.
pub open spec fn spec_enctype_message(field: Seq<char>, etype: i32) -> Seq<char> {
    field + " specifies "@ + spec_i32_decimal(etype) + " but this enctype is not available in the client's keytab"@
}

/// One complaint per configured encryption type, in order, that the keytab
/// does not hold.
pub open spec fn spec_enctype_messages(keytab_enctypes: Seq<i32>, configured: Seq<i32>, field: Seq<char>) -> Seq<
    Seq<char>,
>
    decreases configured.len(),
{
    if configured.len() == 0 {
        Seq::empty()
    } else {
        let rest = spec_enctype_messages(keytab_enctypes, configured.drop_last(), field);
        if keytab_enctypes.contains(configured.last()) {
            rest
        } else {
            rest.push(spec_enctype_message(field, configured.last()))
        }
    }
}

fn contains_i32(s: &[i32], x: i32) -> (r: bool)
    ensures
        r == s@.contains(x),
{
    let mut i: usize = 0;
    while i < s.len()
        invariant
            i <= s@.len(),
            forall|j: int| 0 <= j < i ==> s@[j] != x,
        decreases s@.len() - i,
    {
        if s[i] == x {
            assert(s@[i as int] == x);
            return true;
        }
        i = i + 1;
    }
    false
}

/// Record a complaint for each configured encryption type that the
/// keytab does not hold.
pub fn record_keytab_enctype_diagnostics(
    errors: &mut Vec<String>,
    keytab_enctypes: &[i32],
    configured: &[i32],
    field: &str,
)
    ensures
        spec_string_views(final(errors)@) == spec_string_views(old(errors)@) + spec_enctype_messages(
            keytab_enctypes@,
            configured@,
            field@,
        ),
{
    let ghost start = spec_string_views(errors@);
    let mut i: usize = 0;
    assert(configured@.subrange(0, 0) =~= Seq::<i32>::empty());
    assert(start + Seq::<Seq<char>>::empty() =~= start);
    while i < configured.len()
        invariant
            i <= configured@.len(),
            start == spec_string_views(old(errors)@),
            spec_string_views(errors@) == start + spec_enctype_messages(
                keytab_enctypes@,
                configured@.subrange(0, i as int),
                field@,
            ),
        decreases configured@.len() - i,
    {
        let ghost before = spec_string_views(errors@);
        assert(configured@.subrange(0, i + 1).drop_last() =~= configured@.subrange(0, i as int));
        let etype = configured[i];
        if !contains_i32(keytab_enctypes, etype) {
            let mut msg: Vec<char> = Vec::new();
            extend_chars(&mut msg, field);
            extend_chars(&mut msg, " specifies ");
            push_i32_decimal(&mut msg, etype);
            extend_chars(&mut msg, " but this enctype is not available in the client's keytab");
            errors.push(string_from_chars(msg.as_slice()));
            assert(spec_string_views(errors@) =~= before.push(msg@));
            assert(msg@ =~= spec_enctype_message(field@, etype));
            assert(start + spec_enctype_messages(keytab_enctypes@, configured@.subrange(0, i + 1), field@)
                =~= (start + spec_enctype_messages(keytab_enctypes@, configured@.subrange(0, i as int), field@)).push(msg@));
        } else {
            assert(spec_enctype_messages(keytab_enctypes@, configured@.subrange(0, i + 1), field@)
                == spec_enctype_messages(keytab_enctypes@, configured@.subrange(0, i as int), field@));
        }
        i = i + 1;
    }
    assert(configured@.subrange(0, configured@.len() as int) =~= configured@);
}

/// The label of a transport protocol in diagnostics.
pub fn protocol_label(protocol: KdcProtocol) -> (r: &'static str)
    ensures
        r@ == match protocol {
            KdcProtocol::Udp => "UDP"@,
            KdcProtocol::Tcp => "TCP"@,
            KdcProtocol::Auto => "Auto"@,
        },
{
    match protocol {
        KdcProtocol::Udp => "UDP",
        KdcProtocol::Tcp => "TCP",
        KdcProtocol::Auto => "Auto",
    }
}

/// Client diagnostics from the client's state and what was found while
/// checking it: `configuration_error` is the complaint of the
/// configuration check, if any; `keytab` is the client keytab when the
/// client logs in with one, whose encryption types for the client realm are
/// checked against the configured ticket and preauthentication types; the
/// KDC endpoints and the complaints found looking them up are given per
/// transport.
pub fn diagnostics(
    client: &Principal,
    protocol: KdcProtocol,
    credential_source: &str,
    has_tgt: bool,
    tgt_session_count: usize,
    service_ticket_cache_count: usize,
    libdefaults: &LibDefaults,
    keytab: Option<&Keytab>,
    configuration_error: Option<String>,
    udp_kdcs: Vec<String>,
    udp_errors: Vec<String>,
    tcp_kdcs: Vec<String>,
    tcp_errors: Vec<String>,
) -> (r: TokioClientDiagnostics)
    ensures
        r.client@ == crate::text::spec_join(client@.components, seq!['/']),
        r.realm@ == client@.realm,
        r.protocol@ == match protocol {
            KdcProtocol::Udp => "UDP"@,
            KdcProtocol::Tcp => "TCP"@,
            KdcProtocol::Auto => "Auto"@,
        },
        r.credential_source@ == credential_source@,
        r.has_tgt == has_tgt,
        r.tgt_session_count == tgt_session_count,
        r.service_ticket_cache_count == service_ticket_cache_count,
        r.default_tkt_enctypes@ == libdefaults.default_tkt_enctype_ids@,
        r.preferred_preauth_types@ == libdefaults.preferred_preauth_types@,
        match keytab {
            Some(k) => forall|x: i32|
                r.keytab_enctypes@.contains(x) <==> spec_realm_etypes(k@.entries, client@.realm).contains(x),
            None => r.keytab_enctypes@.len() == 0,
        },
        forall|i: int, j: int| 0 <= i < j < r.keytab_enctypes@.len() ==> r.keytab_enctypes@[i] < r.keytab_enctypes@[j],
        r.udp_kdcs == udp_kdcs,
        r.tcp_kdcs == tcp_kdcs,
        spec_string_views(r.errors@) == (match configuration_error {
            Some(e) => seq![e@],
            None => Seq::empty(),
        }) + (if keytab is Some {
            spec_enctype_messages(
                r.keytab_enctypes@,
                libdefaults.default_tkt_enctype_ids@,
                "default_tkt_enctypes"@,
            ) + spec_enctype_messages(
                r.keytab_enctypes@,
                libdefaults.preferred_preauth_types@,
                "preferred_preauth_types"@,
            )
        } else {
            Seq::empty()
        }) + spec_string_views(udp_errors@) + spec_string_views(tcp_errors@),
{
    let ghost conf_part: Seq<Seq<char>> = if configuration_error is Some {
        seq![configuration_error->Some_0@]
    } else {
        Seq::empty()
    };
    let mut errors: Vec<String> = Vec::new();
    match configuration_error {
        Some(e) => errors.push(e),
        None => {},
    }
    assert(spec_string_views(errors@) =~= conf_part);
    let keytab_enctypes = match keytab {
        Some(k) => {
            let enctypes = keytab_realm_enctypes(k, client.realm.as_str());
            record_keytab_enctype_diagnostics(
                &mut errors,
                enctypes.as_slice(),
                libdefaults.default_tkt_enctype_ids.as_slice(),
                "default_tkt_enctypes",
            );
            record_keytab_enctype_diagnostics(
                &mut errors,
                enctypes.as_slice(),
                libdefaults.preferred_preauth_types.as_slice(),
                "preferred_preauth_types",
            );
            enctypes
        },
        None => Vec::new(),
    };
    let ghost kt_part: Seq<Seq<char>> = if keytab is Some {
        spec_enctype_messages(
            keytab_enctypes@,
            libdefaults.default_tkt_enctype_ids@,
            "default_tkt_enctypes"@,
        ) + spec_enctype_messages(
            keytab_enctypes@,
            libdefaults.preferred_preauth_types@,
            "preferred_preauth_types"@,
        )
    } else {
        Seq::empty()
    };
    assert(spec_string_views(errors@) =~= conf_part + kt_part);
    let ghost before = errors@;
    let mut udp_errors = udp_errors;
    let mut tcp_errors = tcp_errors;
    let ghost udp_v = udp_errors@;
    let ghost tcp_v = tcp_errors@;
    errors.append(&mut udp_errors);
    assert(spec_string_views(errors@) =~= conf_part + kt_part + spec_string_views(udp_v));
    errors.append(&mut tcp_errors);
    assert(spec_string_views(errors@) =~= conf_part + kt_part + spec_string_views(udp_v)
        + spec_string_views(tcp_v));
    TokioClientDiagnostics {
        client: client.name(),
        realm: copy_string(&client.realm),
        protocol: protocol_label(protocol).to_owned(),
        credential_source: credential_source.to_owned(),
        has_tgt,
        tgt_session_count,
        service_ticket_cache_count,
        default_tkt_enctypes: vstd::slice::slice_to_vec(libdefaults.default_tkt_enctype_ids.as_slice()),
        preferred_preauth_types: vstd::slice::slice_to_vec(libdefaults.preferred_preauth_types.as_slice()),
        keytab_enctypes,
        udp_kdcs,
        tcp_kdcs,
        errors,
    }
}

} // verus!
