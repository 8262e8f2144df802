//! The decisions around getting a service ticket and changing a password:
//! whether a cached service ticket is used, renewed or replaced, where the
//! TGT for a request comes from, and how a password change is planned and
//! concluded. Network exchanges stay with the caller.

use vstd::prelude::*;

use super::principal::{Principal, PrincipalModel, KRB_NT_PRINCIPAL};
use super::session::{session_renewable_at, session_valid_at, spec_renewable_at, spec_valid_at};
use super::{AsRepSession, UnixTime};
use crate::kadmin::{self, ChangePasswordResult, KPASSWD_SUCCESS};
use crate::text::{copy_string, spec_string_views};

verus! {

/// What to do with the cached ticket for a service.
#[derive(Clone, Copy, Debug, Eq, PartialEq)]
pub enum CachedTicketUse {
    /// Hand the cached ticket out.
    UseCached,
    /// Try to renew it; on failure, get a new one.
    Renew,
    /// Get a new ticket.
    Fetch,
}

/// A cached ticket valid now is used; one that ended but is renewable is
/// renewed; anything else, or no cached ticket, is replaced.
pub open spec fn spec_cached_ticket_use(ticket: Option<AsRepSession>, now: UnixTime) -> CachedTicketUse {
    match ticket {
        Some(t) => if spec_valid_at(t, now) {
            CachedTicketUse::UseCached
        } else if spec_renewable_at(t, now) {
            CachedTicketUse::Renew
        } else {
            CachedTicketUse::Fetch
        },
        None => CachedTicketUse::Fetch,
    }
}

/// Decide what to do with the cached ticket for a service at `now`.
pub fn cached_ticket_use(ticket: Option<&AsRepSession>, now: UnixTime) -> (r: CachedTicketUse)
    ensures
        r == spec_cached_ticket_use(
            match ticket {
                Some(t) => Some(*t),
                None => None,
            },
            now,
        ),
{
    match ticket {
        Some(t) => if session_valid_at(t, now) {
            CachedTicketUse::UseCached
        } else if session_renewable_at(t, now) {
            CachedTicketUse::Renew
        } else {
            CachedTicketUse::Fetch
        },
        None => CachedTicketUse::Fetch,
    }
}

/// Where the TGT for a service-ticket request comes from.
#[derive(Clone, Copy, Debug, Eq, PartialEq)]
pub enum TgtSource {
    /// The cached TGT for the service's realm.
    CachedForRealm,
    /// Renew a cached cross-realm TGT for the service's realm; if none can
    /// be renewed, make sure of the client's own TGT.
    RenewForRealm,
    /// Make sure of the client's own TGT (cached, renewed or logged in).
    EnsureClientTgt,
}

/// A cached TGT for the service's realm is used; otherwise a foreign realm
/// first tries to renew a cross-realm TGT, and the client's own realm makes
/// sure of the client's TGT.
pub open spec fn spec_tgt_source(cached_for_realm: bool, service_realm: Seq<char>, client_realm: Seq<char>) -> TgtSource {
    if cached_for_realm {
        TgtSource::CachedForRealm
    } else if service_realm != client_realm {
        TgtSource::RenewForRealm
    } else {
        TgtSource::EnsureClientTgt
    }
}

/// Decide where the TGT for a request to `service_realm` comes from.
pub fn tgt_source(cached_for_realm: bool, service_realm: &String, client_realm: &String) -> (r: TgtSource)
    ensures
        r == spec_tgt_source(cached_for_realm, service_realm@, client_realm@),
{
    if cached_for_realm {
        TgtSource::CachedForRealm
    } else if *service_realm != *client_realm {
        TgtSource::RenewForRealm
    } else {
        TgtSource::EnsureClientTgt
    }
}

/// The kind of credential a client holds.
#[derive(Clone, Copy, Debug, Eq, PartialEq)]
pub enum CredentialKind {
    /// A password.
    Password,
    /// A keytab.
    Keytab,
    /// Only a ticket cache.
    CacheOnly,
}

/// How the ticket for the password-change service is obtained.
#[derive(Clone, Copy, Debug, Eq, PartialEq)]
pub enum ChangepwTicketSource {
    /// An AS exchange for the service with the password.
    LoginWithPassword,
    /// An AS exchange for the service with the keytab.
    LoginWithKeytab,
    /// A TGS exchange through the ticket cache.
    ServiceTicket,
}

/// What a password change will do before any message is sent.
#[derive(Debug)]
pub struct PasswordChangePlan {
    /// The password-change service, `kadmin/changepw@TARGET_REALM`.
    pub service: Principal,
    /// How its ticket is obtained.
    pub ticket_source: ChangepwTicketSource,
    /// Whether the request names the target (set-password form), which it
    /// does when the target is not the client.
    pub for_target: bool,
    /// Whether a successful change replaces the client's password
    /// credential: the target is the client, who holds a password.
    pub update_password_credential: bool,
}

/// The password-change service of a realm.
pub open spec fn spec_changepw_service(realm: Seq<char>) -> PrincipalModel {
    PrincipalModel { realm, name_type: KRB_NT_PRINCIPAL, components: seq!["kadmin"@, "changepw"@] }
}

/// Two principals are the same: realm, name type and components.
pub open spec fn spec_same_principal(a: PrincipalModel, b: PrincipalModel) -> bool {
    a.realm == b.realm && a.name_type == b.name_type && a.components == b.components
}

/// The ticket source for a credential kind.
pub open spec fn spec_ticket_source(kind: CredentialKind) -> ChangepwTicketSource {
    match kind {
        CredentialKind::Password => ChangepwTicketSource::LoginWithPassword,
        CredentialKind::Keytab => ChangepwTicketSource::LoginWithKeytab,
        CredentialKind::CacheOnly => ChangepwTicketSource::ServiceTicket,
    }
}

/// Whether two principals are the same.
pub fn same_principal(a: &Principal, b: &Principal) -> (r: bool)
    ensures
        r == spec_same_principal(a@, b@),
{
    a.name_type == b.name_type && super::session::principal_matches(a, b)
}

/// Plan a change of `target`'s password by `client`, who holds a
/// credential of kind `kind`.
pub fn password_change_plan(client: &Principal, target: &Principal, kind: CredentialKind) -> (r:
    PasswordChangePlan)
    ensures
        r.service@ == spec_changepw_service(target@.realm),
        r.ticket_source == spec_ticket_source(kind),
        r.for_target == !spec_same_principal(target@, client@),
        r.update_password_credential == (spec_same_principal(target@, client@) && kind
            == CredentialKind::Password),
{
    let mut components: Vec<String> = Vec::new();
    components.push("kadmin".to_owned());
    components.push("changepw".to_owned());
    let service = Principal::new(copy_string(&target.realm), KRB_NT_PRINCIPAL, components);
    proof {
        reveal_strlit("kadmin");
        reveal_strlit("changepw");
        assert(spec_string_views(service.components@) =~= seq!["kadmin"@, "changepw"@]);
    }
    let same = same_principal(target, client);
    let ticket_source = match kind {
        CredentialKind::Password => ChangepwTicketSource::LoginWithPassword,
        CredentialKind::Keytab => ChangepwTicketSource::LoginWithKeytab,
        CredentialKind::CacheOnly => ChangepwTicketSource::ServiceTicket,
    };
    let holds_password = match kind {
        CredentialKind::Password => true,
        _ => false,
    };
    PasswordChangePlan {
        service,
        ticket_source,
        for_target: !same,
        update_password_credential: same && holds_password,
    }
}

/// Conclude a password change from the decrypted result: on success,
/// whether the client's password credential is to be replaced by the new
/// password; otherwise the failure code and text.
pub fn password_change_outcome(plan: &PasswordChangePlan, result: &ChangePasswordResult) -> (r:
    Result<bool, kadmin::Error>)
    ensures
        result.code == KPASSWD_SUCCESS ==> r == Ok::<bool, kadmin::Error>(
            plan.update_password_credential,
        ),
        result.code != KPASSWD_SUCCESS ==> (r matches Err(kadmin::Error::PasswordChangeFailed {
            code,
            text,
        }) && code == result.code && text@ == result.text@),
{
    match result.ensure_success() {
        Ok(()) => Ok(plan.update_password_credential),
        Err(e) => Err(e),
    }
}

} // verus!
