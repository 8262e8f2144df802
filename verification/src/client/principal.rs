//! Kerberos principal names as written by people: `user@REALM`,
//! `service/host@REALM`, with `\` escaping a separator.

use vstd::prelude::*;

use super::Error;
use crate::text::{join_strings, spec_join, spec_string_views, str_chars, string_from_chars};

verus! {

/// Name type of an ordinary principal.
pub const KRB_NT_PRINCIPAL: i32 = 1;

/// Name type of a service instance principal.
pub const KRB_NT_SRV_INST: i32 = 2;

/// Kerberos principal identity used by client exchanges.
#[derive(Clone, Debug, Eq, Hash, PartialEq)]
pub struct Principal {
    /// Principal realm.
    pub realm: String,
    /// Kerberos name type. Name type is advisory and is not used for matching.
    pub name_type: i32,
    /// Principal name components.
    pub components: Vec<String>,
}

/// A principal as plain values.
pub struct PrincipalModel {
    pub realm: Seq<char>,
    pub name_type: i32,
    pub components: Seq<Seq<char>>,
}

impl View for Principal {
    type V = PrincipalModel;

    open spec fn view(&self) -> PrincipalModel {
        PrincipalModel {
            realm: self.realm@,
            name_type: self.name_type,
            components: spec_string_views(self.components@),
        }
    }
}

// ---------------------------------------------------------------------------
// Escapes

/// Scanning the first `n` characters of `s`: the indices of separators
/// `sep` not preceded by an escaping `\`, and whether an escape is pending.
pub open spec fn spec_separator_scan(s: Seq<char>, sep: char, n: nat) -> (Seq<int>, bool)
    decreases n,
{
    if n == 0 {
        (Seq::empty(), false)
    } else {
        let (positions, escaped) = spec_separator_scan(s, sep, (n - 1) as nat);
        let c = s[n - 1];
        if escaped {
            (positions, false)
        } else if c == '\\' {
            (positions, true)
        } else if c == sep {
            (positions.push(n - 1), false)
        } else {
            (positions, false)
        }
    }
}

/// Indices of the unescaped separators `sep` in `s`.
pub open spec fn spec_separators(s: Seq<char>, sep: char) -> Seq<int> {
    spec_separator_scan(s, sep, s.len()).0
}

/// Unescaping the first `n` characters of `s`: each `\` is dropped and the
/// character after it kept as is; also whether an escape is pending.
pub open spec fn spec_unescape_scan(s: Seq<char>, n: nat) -> (Seq<char>, bool)
    decreases n,
{
    if n == 0 {
        (Seq::empty(), false)
    } else {
        let (out, escaped) = spec_unescape_scan(s, (n - 1) as nat);
        let c = s[n - 1];
        if escaped {
            (out.push(c), false)
        } else if c == '\\' {
            (out, true)
        } else {
            (out.push(c), false)
        }
    }
}

/// `s` unescaped; `None` when it ends in an unfinished escape.
pub open spec fn spec_unescape(s: Seq<char>) -> Option<Seq<char>> {
    let (out, escaped) = spec_unescape_scan(s, s.len());
    if escaped {
        None
    } else {
        Some(out)
    }
}

/// The pieces of `s` between the separators at `seps`.
pub open spec fn spec_pieces(s: Seq<char>, seps: Seq<int>) -> Seq<Seq<char>> {
    Seq::new(
        seps.len() + 1,
        |k: int|
            s.subrange(
                if k == 0 {
                    0
                } else {
                    seps[k - 1] + 1
                },
                if k == seps.len() {
                    s.len() as int
                } else {
                    seps[k]
                },
            ),
    )
}

/// Name and realm of a principal string, or the reason it is refused: it
/// must hold exactly one unescaped `@`, with a non-empty name before it and
/// a realm after it that unescapes to something non-empty.
pub open spec fn spec_name_and_realm(value: Seq<char>) -> Result<(Seq<char>, Seq<char>), Seq<char>> {
    if value.len() == 0 {
        Err("principal name is empty"@)
    } else {
        let seps = spec_separators(value, '@');
        if seps.len() == 0 {
            Err("principal realm separator is missing"@)
        } else if seps.len() > 1 {
            Err("principal contains more than one unescaped realm separator"@)
        } else {
            let name = value.subrange(0, seps[0]);
            let raw_realm = value.subrange(seps[0] + 1, value.len() as int);
            if name.len() == 0 {
                Err("principal name component is empty"@)
            } else {
                match spec_unescape(raw_realm) {
                    None => Err("principal contains a trailing escape character"@),
                    Some(realm) => if realm.len() == 0 {
                        Err("principal realm is empty"@)
                    } else {
                        Ok((name, realm))
                    },
                }
            }
        }
    }
}

/// The components of a principal name split at unescaped `/`, each
/// unescaped, or the reason they are refused.
pub open spec fn spec_components(name: Seq<char>) -> Result<Seq<Seq<char>>, Seq<char>> {
    let pieces = spec_pieces(name, spec_separators(name, '/'));
    if exists|k: int| 0 <= k < pieces.len() && spec_unescape(#[trigger] pieces[k]) is None {
        Err("principal contains a trailing escape character"@)
    } else {
        let comps = Seq::new(pieces.len(), |k: int| spec_unescape(pieces[k])->Some_0);
        if exists|k: int| 0 <= k < comps.len() && (#[trigger] comps[k]).len() == 0 {
            Err("principal contains an empty name component"@)
        } else {
            Ok(comps)
        }
    }
}

/// `user@REALM` parsed, or the reason it is refused.
pub open spec fn spec_parse_user(value: Seq<char>) -> Result<PrincipalModel, Seq<char>> {
    match spec_name_and_realm(value) {
        Err(reason) => Err(reason),
        Ok((name, realm)) => match spec_components(name) {
            Err(reason) => Err(reason),
            Ok(comps) => if comps.len() != 1 {
                Err("user principal must contain exactly one name component"@)
            } else {
                Ok(PrincipalModel { realm, name_type: KRB_NT_PRINCIPAL, components: comps })
            },
        },
    }
}

/// `service/host@REALM` parsed, or the reason it is refused.
pub open spec fn spec_parse_service(value: Seq<char>) -> Result<PrincipalModel, Seq<char>> {
    match spec_name_and_realm(value) {
        Err(reason) => Err(reason),
        Ok((name, realm)) => match spec_components(name) {
            Err(reason) => Err(reason),
            Ok(comps) => if comps.len() != 2 {
                Err("service principal must contain service and host components"@)
            } else {
                Ok(PrincipalModel { realm, name_type: KRB_NT_SRV_INST, components: comps })
            },
        },
    }
}

/// Whether `r` is the principal `expected`, or an invalid-name error about
/// `value` for the reason `expected` gives.
pub open spec fn spec_principal_outcome(
    r: Result<Principal, Error>,
    value: Seq<char>,
    expected: Result<PrincipalModel, Seq<char>>,
) -> bool {
    match r {
        Ok(p) => expected == Ok::<PrincipalModel, Seq<char>>(p@),
        Err(Error::InvalidPrincipalName { value: v, reason }) => v@ == value && expected == Err::<
            PrincipalModel,
            Seq<char>,
        >(reason@),
        Err(_) => false,
    }
}

fn unescaped_separator_indices(value: &[char], separator: char) -> (r: Vec<usize>)
    ensures
        r@.map_values(|i: usize| i as int) == spec_separators(value@, separator),
        forall|k: int| 0 <= k < r@.len() ==> r@[k] < value@.len(),
        forall|k1: int, k2: int| 0 <= k1 < k2 < r@.len() ==> r@[k1] < r@[k2],
{
    let mut escaped = false;
    let mut positions: Vec<usize> = Vec::new();
    let mut i: usize = 0;
    while i < value.len()
        invariant
            i <= value@.len(),
            (positions@.map_values(|i: usize| i as int), escaped) == spec_separator_scan(
                value@,
                separator,
                i as nat,
            ),
            forall|k: int| 0 <= k < positions@.len() ==> positions@[k] < i,
            forall|k1: int, k2: int|
                0 <= k1 < k2 < positions@.len() ==> positions@[k1] < positions@[k2],
        decreases value@.len() - i,
    {
        let ch = value[i];
        let ghost before = positions@;
        if escaped {
            escaped = false;
        } else if ch == '\\' {
            escaped = true;
        } else if ch == separator {
            positions.push(i);
            assert(positions@.map_values(|i: usize| i as int) =~= before.map_values(
                |i: usize| i as int,
            ).push(i as int));
        }
        i = i + 1;
    }
    positions
}

fn unescape_component(component: &[char]) -> (r: Option<String>)
    ensures
        match spec_unescape(component@) {
            Some(s) => r matches Some(out) && out@ == s,
            None => r is None,
        },
{
    let mut escaped = false;
    let mut out: Vec<char> = Vec::new();
    let mut i: usize = 0;
    while i < component.len()
        invariant
            i <= component@.len(),
            (out@, escaped) == spec_unescape_scan(component@, i as nat),
        decreases component@.len() - i,
    {
        let ch = component[i];
        if escaped {
            out.push(ch);
            escaped = false;
        } else if ch == '\\' {
            escaped = true;
        } else {
            out.push(ch);
        }
        i = i + 1;
    }
    if escaped {
        None
    } else {
        Some(string_from_chars(out.as_slice()))
    }
}

fn invalid_principal_name(value: &str, reason: &'static str) -> (r: Error)
    ensures
        r matches Error::InvalidPrincipalName { value: v, reason: why } && v@ == value@ && why@
            == reason@,
{
    Error::InvalidPrincipalName { value: value.to_owned(), reason }
}

fn parse_name_and_realm(value: &str, chars: &[char]) -> (r: Result<(Vec<char>, String), Error>)
    requires
        chars@ == value@,
    ensures
        match r {
            Ok((name, realm)) => spec_name_and_realm(value@) == Ok::<
                (Seq<char>, Seq<char>),
                Seq<char>,
            >((name@, realm@)),
            Err(Error::InvalidPrincipalName { value: v, reason }) => v@ == value@
                && spec_name_and_realm(value@) == Err::<(Seq<char>, Seq<char>), Seq<char>>(
                reason@,
            ),
            Err(_) => false,
        },
{
    if chars.len() == 0 {
        return Err(invalid_principal_name(value, "principal name is empty"));
    }
    let separators = unescaped_separator_indices(chars, '@');
    proof {
        assert(separators@.map_values(|i: usize| i as int).len() == separators@.len());
    }
    if separators.len() == 0 {
        return Err(invalid_principal_name(value, "principal realm separator is missing"));
    }
    if separators.len() > 1 {
        return Err(
            invalid_principal_name(
                value,
                "principal contains more than one unescaped realm separator",
            ),
        );
    }
    let separator = separators[0];
    proof {
        assert(spec_separators(value@, '@')[0] == separator as int);
    }
    let name = vstd::slice::slice_to_vec(&chars[0..separator]);
    let raw_realm = &chars[separator + 1..chars.len()];
    if name.len() == 0 {
        return Err(invalid_principal_name(value, "principal name component is empty"));
    }
    let realm = match unescape_component(raw_realm) {
        Some(r) => r,
        None => {
            return Err(
                invalid_principal_name(value, "principal contains a trailing escape character"),
            );
        },
    };
    if realm.as_str().unicode_len() == 0 {
        return Err(invalid_principal_name(value, "principal realm is empty"));
    }
    Ok((name, realm))
}

#[verifier::loop_isolation(false)]
fn parse_principal_components(value: &str, name: &[char]) -> (r: Result<Vec<String>, Error>)
    ensures
        match r {
            Ok(comps) => spec_components(name@) == Ok::<Seq<Seq<char>>, Seq<char>>(
                spec_string_views(comps@),
            ),
            Err(Error::InvalidPrincipalName { value: v, reason }) => v@ == value@
                && spec_components(name@) == Err::<Seq<Seq<char>>, Seq<char>>(reason@),
            Err(_) => false,
        },
{
    let separators = unescaped_separator_indices(name, '/');
    let ghost seps = spec_separators(name@, '/');
    let ghost pieces = spec_pieces(name@, seps);
    proof {
        assert forall|k: int| 0 <= k < separators@.len() implies seps[k] == separators@[k] by {
            assert(separators@.map_values(|i: usize| i as int)[k] == separators@[k] as int);
        }
    }
    let mut components: Vec<String> = Vec::new();
    let mut start: usize = 0;
    let mut k: usize = 0;
    let n = name.len();
    while k < separators.len()
        invariant
            n == name@.len(),
            seps == spec_separators(name@, '/'),
            pieces == spec_pieces(name@, seps),
            separators@.len() == seps.len(),
            forall|j: int| 0 <= j < separators@.len() ==> seps[j] == separators@[j],
            forall|j: int| 0 <= j < separators@.len() ==> separators@[j] < name@.len(),
            forall|j1: int, j2: int|
                0 <= j1 < j2 < separators@.len() ==> separators@[j1] < separators@[j2],
            k <= separators@.len(),
            components@.len() == k,
            start == if k == 0 {
                0
            } else {
                separators@[k - 1] + 1
            },
            start <= name@.len(),
            forall|j: int|
                0 <= j < k ==> spec_unescape(pieces[j]) == Some::<Seq<char>>(
                    (#[trigger] components@[j])@,
                ),
        decreases separators@.len() - k,
    {
        let end = separators[k];
        proof {
            if k > 0 {
                assert(separators@[k - 1] < separators@[k as int]);
            }
        }
        let piece = &name[start..end];
        proof {
            assert(piece@ == pieces[k as int]);
        }
        match unescape_component(piece) {
            Some(text) => components.push(text),
            None => {
                proof {
                    assert(spec_unescape(pieces[k as int]) is None);
                }
                return Err(
                    invalid_principal_name(value, "principal contains a trailing escape character"),
                );
            },
        }
        start = end + 1;
        k = k + 1;
    }
    let last = &name[start..name.len()];
    proof {
        assert(last@ == pieces[k as int]);
    }
    match unescape_component(last) {
        Some(text) => components.push(text),
        None => {
            proof {
                assert(spec_unescape(pieces[k as int]) is None);
            }
            return Err(
                invalid_principal_name(value, "principal contains a trailing escape character"),
            );
        },
    }
    proof {
        assert(pieces.len() == components@.len());
        assert forall|j: int| 0 <= j < pieces.len() implies spec_unescape(pieces[j]) is Some by {
            assert(spec_unescape(pieces[j]) == Some::<Seq<char>>(components@[j]@));
        }
    }
    let ghost comps = Seq::new(pieces.len(), |j: int| spec_unescape(pieces[j])->Some_0);
    proof {
        assert(spec_string_views(components@) =~= comps);
    }
    let mut i: usize = 0;
    while i < components.len()
        invariant
            i <= components@.len(),
            comps == spec_string_views(components@),
            forall|j: int| 0 <= j < i ==> comps[j].len() > 0,
        decreases components@.len() - i,
    {
        if components[i].as_str().unicode_len() == 0 {
            proof {
                assert(comps[i as int].len() == 0);
            }
            return Err(invalid_principal_name(value, "principal contains an empty name component"));
        }
        i = i + 1;
    }
    Ok(components)
}

fn host_based_service_principal(service: &str, host: &str, realm: &str) -> (r: Result<
    Principal,
    Error,
>)
    ensures
        spec_principal_outcome(
            r,
            if service@.len() == 0 {
                service@
            } else {
                host@
            },
            spec_host_based_service(service@, host@, realm@),
        ),
{
    if service.unicode_len() == 0 {
        return Err(invalid_principal_name(service, "host-based service name is empty"));
    }
    if host.unicode_len() == 0 {
        return Err(invalid_principal_name(host, "host-based service host is empty"));
    }
    let mut components: Vec<String> = Vec::new();
    components.push(service.to_owned());
    components.push(host.to_owned());
    let p = Principal { realm: realm.to_owned(), name_type: KRB_NT_SRV_INST, components };
    proof {
        assert(spec_string_views(p.components@) =~= seq![service@, host@]);
    }
    Ok(p)
}

/// A host-based service principal: components `[service, host]`, name type
/// 2, or the reason it is refused (an empty service or host).
pub open spec fn spec_host_based_service(service: Seq<char>, host: Seq<char>, realm: Seq<char>) -> Result<
    PrincipalModel,
    Seq<char>,
> {
    if service.len() == 0 {
        Err("host-based service name is empty"@)
    } else if host.len() == 0 {
        Err("host-based service host is empty"@)
    } else {
        Ok(PrincipalModel { realm, name_type: KRB_NT_SRV_INST, components: seq![service, host] })
    }
}

impl Principal {
    /// Create a principal.
    pub fn new(realm: String, name_type: i32, components: Vec<String>) -> (r: Self)
        ensures
            r.realm == realm,
            r.name_type == name_type,
            r.components == components,
    {
        Principal { realm, name_type, components }
    }

    /// Create a normal client principal.
    pub fn user(realm: String, name: String) -> (r: Self)
        ensures
            r@ == (PrincipalModel {
                realm: realm@,
                name_type: KRB_NT_PRINCIPAL,
                components: seq![name@],
            }),
    {
        let mut components: Vec<String> = Vec::new();
        components.push(name);
        let r = Principal { realm, name_type: KRB_NT_PRINCIPAL, components };
        assert(spec_string_views(r.components@) =~= seq![name@]);
        r
    }

    /// Parse a single-component user principal in `user@REALM` form.
    ///
    /// Separator characters may be escaped with `\`, for example
    /// `user\@name@REALM` parses as user component `user@name`.
    pub fn parse_user(value: &str) -> (r: Result<Self, Error>)
        ensures
            spec_principal_outcome(r, value@, spec_parse_user(value@)),
    {
        let chars = str_chars(value);
        let (name, realm) = match parse_name_and_realm(value, chars.as_slice()) {
            Ok(parts) => parts,
            Err(e) => return Err(e),
        };
        let mut components = match parse_principal_components(value, name.as_slice()) {
            Ok(c) => c,
            Err(e) => return Err(e),
        };
        if components.len() != 1 {
            proof {
                assert(spec_string_views(components@).len() == components@.len());
            }
            return Err(
                invalid_principal_name(
                    value,
                    "user principal must contain exactly one name component",
                ),
            );
        }
        let p = Principal { realm, name_type: KRB_NT_PRINCIPAL, components };
        Ok(p)
    }

    /// Parse a host service principal in `service/host@REALM` form.
    ///
    /// This creates a name type 2 service principal with components
    /// `[service, host]`, the host-based service shape of native GSSAPI.
    pub fn parse_service(value: &str) -> (r: Result<Self, Error>)
        ensures
            spec_principal_outcome(r, value@, spec_parse_service(value@)),
    {
        let chars = str_chars(value);
        let (name, realm) = match parse_name_and_realm(value, chars.as_slice()) {
            Ok(parts) => parts,
            Err(e) => return Err(e),
        };
        let components = match parse_principal_components(value, name.as_slice()) {
            Ok(c) => c,
            Err(e) => return Err(e),
        };
        if components.len() != 2 {
            proof {
                assert(spec_string_views(components@).len() == components@.len());
            }
            return Err(
                invalid_principal_name(
                    value,
                    "service principal must contain service and host components",
                ),
            );
        }
        Ok(Principal { realm, name_type: KRB_NT_SRV_INST, components })
    }

    /// Create a host-based service principal with an empty realm.
    ///
    /// High-level clients resolve the empty service realm from
    /// `[domain_realm]` and then from the client realm.
    pub fn host_based_service(service: &str, host: &str) -> (r: Result<Self, Error>)
        ensures
            spec_principal_outcome(
                r,
                if service@.len() == 0 {
                    service@
                } else {
                    host@
                },
                spec_host_based_service(service@, host@, Seq::empty()),
            ),
    {
        let empty = "";
        proof {
            reveal_strlit("");
        }
        assert(empty@ =~= Seq::<char>::empty());
        host_based_service_principal(service, host, empty)
    }

    /// Create a host-based service principal in a specific realm.
    pub fn host_based_service_in_realm(service: &str, host: &str, realm: &str) -> (r: Result<
        Self,
        Error,
    >)
        ensures
            realm@.len() == 0 ==> spec_principal_outcome(
                r,
                realm@,
                Err("host-based service realm is empty"@),
            ),
            realm@.len() > 0 ==> spec_principal_outcome(
                r,
                if service@.len() == 0 {
                    service@
                } else {
                    host@
                },
                spec_host_based_service(service@, host@, realm@),
            ),
    {
        if realm.unicode_len() == 0 {
            return Err(invalid_principal_name(realm, "host-based service realm is empty"));
        }
        host_based_service_principal(service, host, realm)
    }

    /// Create the TGT service principal for a realm: `krbtgt/REALM@REALM`.
    pub fn tgt_service(realm: String) -> (r: Self)
        ensures
            r@ == (PrincipalModel {
                realm: realm@,
                name_type: KRB_NT_SRV_INST,
                components: seq!["krbtgt"@, realm@],
            }),
    {
        let mut components: Vec<String> = Vec::new();
        components.push("krbtgt".to_owned());
        components.push(realm.clone());
        let r = Principal { realm, name_type: KRB_NT_SRV_INST, components };
        assert(spec_string_views(r.components@) =~= seq!["krbtgt"@, r.realm@]);
        r
    }

    /// Principal components joined by `/`.
    pub fn name(&self) -> (r: String)
        ensures
            r@ == spec_join(self@.components, seq!['/']),
    {
        let sep = "/";
        proof {
            reveal_strlit("/");
        }
        assert(sep@ =~= seq!['/']);
        join_strings(&self.components, sep)
    }
}

} // verus!
