//! A decoded KDC reply held against the request it answers: the reply's
//! client, nonce and services must be the ones asked for, and a reply that
//! passes becomes a ticket session.

use vstd::prelude::*;

use super::principal::{Principal, PrincipalModel};
use super::session::{is_tgt_principal, principal_matches, spec_is_tgt_principal, spec_principal_matches, SessionModel};
use super::{AsRepSession, Error, UnixTime};
use crate::keytab::{EncryptionKey, EncryptionKeyModel};
use crate::text::spec_join;

verus! {

/// Encoded AS-REQ plus what processing its reply checks against.
#[derive(Clone, Debug, Eq, PartialEq)]
pub struct BuiltAsReq {
    /// DER-encoded AS-REQ bytes suitable for KDC transport.
    pub der: Vec<u8>,
    /// Request client principal.
    pub client: Principal,
    /// Request service principal.
    pub service: Principal,
    /// Request nonce.
    pub nonce: u32,
}

/// Encoded TGS-REQ plus what processing its reply checks against.
#[derive(Clone, Debug, Eq, PartialEq)]
pub struct BuiltTgsReq {
    /// DER-encoded TGS-REQ bytes suitable for KDC transport.
    pub der: Vec<u8>,
    /// Expected client principal in the KDC reply; for S4U2Self the
    /// impersonated user.
    pub client: Principal,
    /// Requested service principal.
    pub service: Principal,
    /// Realm contacted for the TGS exchange.
    pub kdc_realm: String,
    /// Request nonce.
    pub nonce: u32,
}

/// The fields of a decoded AS-REP or TGS-REP and of its decrypted
/// encrypted part that reply processing reads.
#[derive(Clone, Debug, Eq, PartialEq)]
pub struct KdcReplyParts {
    /// Reply client: `crealm` and `cname`.
    pub client: Principal,
    /// Service the ticket is for: the ticket's `realm` and `sname`.
    pub ticket_service: Principal,
    /// DER-encoded ticket.
    pub ticket: Vec<u8>,
    /// Encrypted-part nonce.
    pub nonce: u32,
    /// Encrypted-part service: `srealm` and `sname`.
    pub service: Principal,
    /// Session key issued by the KDC.
    pub session_key: EncryptionKey,
    /// Ticket flags as the bytes of their bit string.
    pub flags: Vec<u8>,
    /// Initial authentication time.
    pub auth_time: UnixTime,
    /// Ticket start time, when supplied.
    pub start_time: Option<UnixTime>,
    /// Ticket end time.
    pub end_time: UnixTime,
    /// Renewable-until time, when supplied.
    pub renew_till: Option<UnixTime>,
    /// Session key expiration time, when supplied.
    pub key_expiration: Option<UnixTime>,
}

/// A decoded reply as plain values.
pub struct KdcReplyModel {
    pub client: PrincipalModel,
    pub ticket_service: PrincipalModel,
    pub ticket: Seq<u8>,
    pub nonce: u32,
    pub service: PrincipalModel,
    pub session_key: EncryptionKeyModel,
    pub flags: Seq<u8>,
    pub auth_time: UnixTime,
    pub start_time: Option<UnixTime>,
    pub end_time: UnixTime,
    pub renew_till: Option<UnixTime>,
    pub key_expiration: Option<UnixTime>,
}

impl View for KdcReplyParts {
    type V = KdcReplyModel;

    open spec fn view(&self) -> KdcReplyModel {
        KdcReplyModel {
            client: self.client@,
            ticket_service: self.ticket_service@,
            ticket: self.ticket@,
            nonce: self.nonce,
            service: self.service@,
            session_key: self.session_key@,
            flags: self.flags@,
            auth_time: self.auth_time,
            start_time: self.start_time,
            end_time: self.end_time,
            renew_till: self.renew_till,
            key_expiration: self.key_expiration,
        }
    }
}

/// Why a reply does not answer its request.
pub enum ReplyFault {
    /// The reply is for another client.
    Client,
    /// The reply carries another nonce.
    Nonce,
    /// The encrypted part names another service than the one asked for.
    Service,
    /// The ticket is for another service than the encrypted part names.
    TicketService,
}

/// The first check, in the order the reply is read, that a reply fails:
/// its client, its nonce, the service of its encrypted part (with
/// `allow_referral`, a ticket-granting service may stand in place of the
/// one asked for), then the service of its ticket.
pub open spec fn spec_reply_fault(
    client: PrincipalModel,
    service: PrincipalModel,
    nonce: u32,
    reply: KdcReplyModel,
    allow_referral: bool,
) -> Option<ReplyFault> {
    if !spec_principal_matches(reply.client, client) {
        Some(ReplyFault::Client)
    } else if reply.nonce != nonce {
        Some(ReplyFault::Nonce)
    } else if !spec_principal_matches(reply.service, service) && !(allow_referral
        && spec_is_tgt_principal(reply.service)) {
        Some(ReplyFault::Service)
    } else if !spec_principal_matches(reply.ticket_service, reply.service) {
        Some(ReplyFault::TicketService)
    } else {
        None
    }
}

/// The first four bytes of a flag bit string, zero where it is shorter.
pub open spec fn spec_flag_bytes(flags: Seq<u8>) -> Seq<u8> {
    Seq::new(4, |i: int| if i < flags.len() { flags[i] } else { 0u8 })
}

/// The session a reply that passes its checks yields; the start time is
/// the authentication time when the reply gives none.
pub open spec fn spec_reply_session(reply: KdcReplyModel) -> SessionModel {
    SessionModel {
        client: reply.client,
        service: reply.service,
        session_key: reply.session_key,
        ticket: reply.ticket,
        ticket_flags: spec_flag_bytes(reply.flags),
        auth_time: reply.auth_time,
        start_time: match reply.start_time {
            Some(t) => t,
            None => reply.auth_time,
        },
        end_time: reply.end_time,
        renew_till: reply.renew_till,
        key_expiration: reply.key_expiration,
    }
}

/// A principal's components joined by `/`, as error messages name it.
pub open spec fn spec_principal_name(p: PrincipalModel) -> Seq<char> {
    spec_join(p.components, seq!['/'])
}

/// What reply processing returns for a request's client, service and
/// nonce: the session, or the error of the first failed check.
pub open spec fn spec_reply_result(
    client: PrincipalModel,
    service: PrincipalModel,
    nonce: u32,
    reply: KdcReplyModel,
    allow_referral: bool,
    r: Result<AsRepSession, Error>,
) -> bool {
    match spec_reply_fault(client, service, nonce, reply, allow_referral) {
        None => r matches Ok(s) && s@ == spec_reply_session(reply),
        Some(ReplyFault::Client) => r matches Err(Error::ClientPrincipalMismatch { expected, actual })
            && expected@ == spec_principal_name(client) && actual@ == spec_principal_name(
            reply.client,
        ),
        Some(ReplyFault::Nonce) => r matches Err(Error::NonceMismatch { expected, actual })
            && expected == nonce && actual == reply.nonce,
        Some(ReplyFault::Service) => r matches Err(Error::ServicePrincipalMismatch { expected, actual })
            && expected@ == spec_principal_name(service) && actual@ == spec_principal_name(
            reply.service,
        ),
        Some(ReplyFault::TicketService) => r matches Err(
            Error::ServicePrincipalMismatch { expected, actual },
        ) && expected@ == spec_principal_name(reply.service) && actual@ == spec_principal_name(
            reply.ticket_service,
        ),
    }
}

fn flag_bytes(flags: &Vec<u8>) -> (r: [u8; 4])
    ensures
        r@ == spec_flag_bytes(flags@),
{
    let b0 = if flags.len() > 0 { flags[0] } else { 0u8 };
    let b1 = if flags.len() > 1 { flags[1] } else { 0u8 };
    let b2 = if flags.len() > 2 { flags[2] } else { 0u8 };
    let b3 = if flags.len() > 3 { flags[3] } else { 0u8 };
    let r: [u8; 4] = [b0, b1, b2, b3];
    assert(r@ =~= spec_flag_bytes(flags@));
    r
}

pub(crate) fn reply_session(
    client: &Principal,
    service: &Principal,
    nonce: u32,
    reply: KdcReplyParts,
    allow_referral: bool,
) -> (r: Result<AsRepSession, Error>)
    ensures
        spec_reply_result(client@, service@, nonce, reply@, allow_referral, r),
{
    if !principal_matches(&reply.client, client) {
        return Err(Error::ClientPrincipalMismatch { expected: client.name(), actual: reply.client.name() });
    }
    if reply.nonce != nonce {
        return Err(Error::NonceMismatch { expected: nonce, actual: reply.nonce });
    }
    let matches_service = principal_matches(&reply.service, service);
    let referral = allow_referral && is_tgt_principal(&reply.service) && !matches_service;
    if !matches_service && !referral {
        return Err(
            Error::ServicePrincipalMismatch { expected: service.name(), actual: reply.service.name() },
        );
    }
    if !principal_matches(&reply.ticket_service, &reply.service) {
        return Err(
            Error::ServicePrincipalMismatch {
                expected: reply.service.name(),
                actual: reply.ticket_service.name(),
            },
        );
    }
    let ticket_flags = flag_bytes(&reply.flags);
    let start_time = match reply.start_time {
        Some(t) => t,
        None => reply.auth_time,
    };
    let KdcReplyParts {
        client: reply_client,
        ticket_service: _,
        ticket,
        nonce: _,
        service: reply_service,
        session_key,
        flags: _,
        auth_time,
        start_time: _,
        end_time,
        renew_till,
        key_expiration,
    } = reply;
    Ok(
        AsRepSession {
            client: reply_client,
            service: reply_service,
            session_key,
            ticket,
            ticket_flags,
            auth_time,
            start_time,
            end_time,
            renew_till,
            key_expiration,
        },
    )
}

/// Check a decoded AS-REP against its request and turn it into a session:
/// the reply's client, then its nonce, then the service of its encrypted
/// part and of its ticket must be the ones asked for.
pub fn as_rep_session(request: &BuiltAsReq, reply: KdcReplyParts) -> (r: Result<AsRepSession, Error>)
    ensures
        spec_reply_result(request.client@, request.service@, request.nonce, reply@, false, r),
{
    reply_session(&request.client, &request.service, request.nonce, reply, false)
}

/// Check a decoded TGS-REP against its request and turn it into a session.
pub fn tgs_rep_session(request: &BuiltTgsReq, reply: KdcReplyParts) -> (r: Result<AsRepSession, Error>)
    ensures
        spec_reply_result(request.client@, request.service@, request.nonce, reply@, false, r),
{
    reply_session(&request.client, &request.service, request.nonce, reply, false)
}

/// Check a decoded TGS-REP as [`tgs_rep_session`] does, but accept a
/// referral: a ticket-granting service in place of the one asked for.
pub fn tgs_rep_session_with_referral(request: &BuiltTgsReq, reply: KdcReplyParts) -> (r: Result<
    AsRepSession,
    Error,
>)
    ensures
        spec_reply_result(request.client@, request.service@, request.nonce, reply@, true, r),
{
    reply_session(&request.client, &request.service, request.nonce, reply, true)
}

} // verus!
