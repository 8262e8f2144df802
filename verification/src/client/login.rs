//! The decisions of a TGT login, one KDC reply at a time: whether a cached
//! TGT is used or renewed, and otherwise the initial AS-REQ, the retry
//! with preauthentication after `KDC_ERR_PREAUTH_REQUIRED`, and the key
//! a reply is decrypted with. Sending, receiving, decoding and key
//! derivation are the caller's; this module decides what comes next.

use vstd::prelude::*;

use super::{
    select_preauth_key_info, spec_first_supported, spec_hinted_info, spec_key_info, Error,
    PreauthKeyInfo,
};

verus! {

/// KDC error code asking the client to preauthenticate.
pub const KDC_ERR_PREAUTH_REQUIRED: i32 = 25;

/// What the client holds of a TGT at the start of a login.
#[derive(Clone, Copy, Debug, Eq, PartialEq)]
pub enum TgtStatus {
    /// No TGT is cached.
    Missing,
    /// The cached TGT is valid now.
    Valid,
    /// The cached TGT has ended but can still be renewed.
    Renewable,
    /// The cached TGT can be neither used nor renewed.
    Unusable,
}

/// What a KDC reply turned out to be once decoded.
#[derive(Clone, Debug, Eq, PartialEq)]
pub enum KdcReplyKind {
    /// An AS-REP whose encrypted part uses this encryption type.
    AsRep {
        /// Encryption type of the reply's encrypted part.
        etype: i32,
    },
    /// A KRB-ERROR, with the key hints of its method data.
    KdcError {
        /// Kerberos error code.
        error_code: i32,
        /// ETYPE-INFO2 / ETYPE-INFO hints, in order.
        key_info: Vec<PreauthKeyInfo>,
    },
}

/// Where a login stands.
#[derive(Clone, Debug, Eq, PartialEq)]
pub enum LoginState {
    /// Nothing decided yet.
    Idle,
    /// The initial AS-REQ was sent with these requested encryption types.
    AwaitingInitialReply {
        /// Requested encryption types.
        etypes: Vec<i32>,
    },
    /// The preauthenticated AS-REQ was sent with this key hint.
    AwaitingPreauthReply {
        /// Key hint the request was preauthenticated with.
        key_info: PreauthKeyInfo,
    },
    /// The login is over.
    Finished,
}

/// What happened.
#[derive(Clone, Debug, Eq, PartialEq)]
pub enum LoginEvent {
    /// A login was asked for.
    Start {
        /// Whether password or keytab credentials are configured.
        has_credentials: bool,
        /// The cached TGT's standing.
        tgt: TgtStatus,
        /// Requested encryption types.
        etypes: Vec<i32>,
    },
    /// The KDC answered the last request.
    Reply(KdcReplyKind),
}

/// What to do next.
#[derive(Debug)]
pub enum LoginAction {
    /// Keep the cached TGT.
    UseCachedTgt,
    /// Renew the cached TGT.
    RenewTgt,
    /// Send the initial AS-REQ.
    SendInitialRequest,
    /// Send an AS-REQ preauthenticated with a key made from this hint.
    SendPreauthRequest {
        /// Key hint for the preauthentication key.
        key_info: PreauthKeyInfo,
    },
    /// Decrypt and check the AS-REP with a key made from this hint.
    ProcessReply {
        /// Key hint for the reply key.
        key_info: PreauthKeyInfo,
    },
    /// Stop with this error.
    Fail(Error),
}

/// Whether `r` is the login's next state and action for state `s` and
/// event `e`:
/// - a start without credentials keeps a valid TGT, renews a renewable
///   one and else fails with `NoClientCredentials`; with credentials it
///   sends the initial AS-REQ;
/// - an AS-REP to the initial request is processed with a key of its own
///   encryption type and no hints; a KRB-ERROR other than
///   `PREAUTH_REQUIRED` fails with its code; `PREAUTH_REQUIRED` leads to a
///   preauthenticated request with the hint `select_preauth_key_info`
///   picks, or fails with its error;
/// - an AS-REP to the preauthenticated request is processed with the hint
///   it was sent with, and a KRB-ERROR fails with its code;
/// - any other event fails with `UnexpectedLoginEvent`.
pub open spec fn spec_login_step(s: LoginState, e: LoginEvent, r: (LoginState, LoginAction)) -> bool {
    match (s, e) {
        (LoginState::Idle, LoginEvent::Start { has_credentials, tgt, etypes }) => if has_credentials {
            r == (LoginState::AwaitingInitialReply { etypes }, LoginAction::SendInitialRequest)
        } else {
            r == (LoginState::Finished, match tgt {
                TgtStatus::Valid => LoginAction::UseCachedTgt,
                TgtStatus::Renewable => LoginAction::RenewTgt,
                _ => LoginAction::Fail(Error::NoClientCredentials),
            })
        },
        (LoginState::AwaitingInitialReply { etypes }, LoginEvent::Reply(reply)) => match reply {
            KdcReplyKind::AsRep { etype } => r == (
                LoginState::Finished,
                LoginAction::ProcessReply {
                    key_info: PreauthKeyInfo { etype, salt: None, s2kparams: None },
                },
            ),
            KdcReplyKind::KdcError { error_code, key_info } => if error_code
                != KDC_ERR_PREAUTH_REQUIRED {
                r == (LoginState::Finished, LoginAction::Fail(Error::Kdc { error_code }))
            } else {
                match spec_hinted_info(key_info@, etypes@) {
                    Some(k) => spec_sends_preauth(r, spec_key_info(key_info@[k])),
                    None => if key_info@.len() == 0 && spec_first_supported(etypes@) is Some {
                        spec_sends_preauth(
                            r,
                            (spec_first_supported(etypes@)->Some_0, None, None),
                        )
                    } else {
                        r.0 == LoginState::Finished && (r.1 matches LoginAction::Fail(
                            Error::NoSupportedPreauthEtype { requested },
                        ) && requested@ == etypes@)
                    },
                }
            },
        },
        (LoginState::AwaitingPreauthReply { key_info }, LoginEvent::Reply(reply)) => match reply {
            KdcReplyKind::AsRep { .. } => r == (
                LoginState::Finished,
                LoginAction::ProcessReply { key_info },
            ),
            KdcReplyKind::KdcError { error_code, .. } => r == (
                LoginState::Finished,
                LoginAction::Fail(Error::Kdc { error_code }),
            ),
        },
        _ => r == (LoginState::Finished, LoginAction::Fail(Error::UnexpectedLoginEvent)),
    }
}

/// Whether `r` sends a preauthenticated request with a hint of the given
/// values and waits for its reply.
pub open spec fn spec_sends_preauth(
    r: (LoginState, LoginAction),
    info: (i32, Option<Seq<char>>, Option<Seq<u8>>),
) -> bool {
    &&& r.1 matches LoginAction::SendPreauthRequest { key_info: x }
    &&& spec_key_info(x) == info
    &&& r.0 matches LoginState::AwaitingPreauthReply { key_info: y }
    &&& spec_key_info(y) == info
}

/// The login's next state and action.
pub fn login_step(s: LoginState, e: LoginEvent) -> (r: (LoginState, LoginAction))
    ensures
        spec_login_step(s, e, r),
{
    match (s, e) {
        (LoginState::Idle, LoginEvent::Start { has_credentials, tgt, etypes }) => if has_credentials {
            (LoginState::AwaitingInitialReply { etypes }, LoginAction::SendInitialRequest)
        } else {
            let action = match tgt {
                TgtStatus::Valid => LoginAction::UseCachedTgt,
                TgtStatus::Renewable => LoginAction::RenewTgt,
                _ => LoginAction::Fail(Error::NoClientCredentials),
            };
            (LoginState::Finished, action)
        },
        (LoginState::AwaitingInitialReply { etypes }, LoginEvent::Reply(reply)) => match reply {
            KdcReplyKind::AsRep { etype } => (
                LoginState::Finished,
                LoginAction::ProcessReply {
                    key_info: PreauthKeyInfo { etype, salt: None, s2kparams: None },
                },
            ),
            KdcReplyKind::KdcError { error_code, key_info } => if error_code
                != KDC_ERR_PREAUTH_REQUIRED {
                (LoginState::Finished, LoginAction::Fail(Error::Kdc { error_code }))
            } else {
                match select_preauth_key_info(key_info.as_slice(), etypes.as_slice()) {
                    Ok(x) => {
                        let kept = copy_key_info(&x);
                        (
                            LoginState::AwaitingPreauthReply { key_info: kept },
                            LoginAction::SendPreauthRequest { key_info: x },
                        )
                    },
                    Err(err) => (LoginState::Finished, LoginAction::Fail(err)),
                }
            },
        },
        (LoginState::AwaitingPreauthReply { key_info }, LoginEvent::Reply(reply)) => match reply {
            KdcReplyKind::AsRep { .. } => (LoginState::Finished, LoginAction::ProcessReply { key_info }),
            KdcReplyKind::KdcError { error_code, .. } => (
                LoginState::Finished,
                LoginAction::Fail(Error::Kdc { error_code }),
            ),
        },
        _ => (LoginState::Finished, LoginAction::Fail(Error::UnexpectedLoginEvent)),
    }
}

fn copy_key_info(x: &PreauthKeyInfo) -> (r: PreauthKeyInfo)
    ensures
        spec_key_info(r) == spec_key_info(*x),
{
    let salt = match &x.salt {
        Some(s) => Some(crate::text::copy_string(s)),
        None => None,
    };
    let s2kparams = match &x.s2kparams {
        Some(b) => Some(vstd::slice::slice_to_vec(b.as_slice())),
        None => None,
    };
    PreauthKeyInfo { etype: x.etype, salt, s2kparams }
}

} // verus!
