//! The decisions of following TGS referrals towards a service's realm:
//! which service to ask each realm for, and what a returned ticket means:
//! the service ticket, a referral to follow, or an error.

use vstd::prelude::*;

use super::principal::{Principal, PrincipalModel, KRB_NT_SRV_INST};
use super::session::{
    is_tgt_principal, principal_matches, spec_is_tgt_principal, spec_principal_matches,
};
use super::{AsRepSession, Error};
use crate::text::{copy_string, spec_join};

verus! {

/// Default number of referrals followed before giving up.
pub const DEFAULT_MAX_REFERRALS: usize = 10;

/// The service to ask the current realm's KDC for: the service itself in
/// its own realm, else the cross-realm TGS `krbtgt/TARGET@CURRENT`.
pub open spec fn spec_referral_request_service(
    current_realm: Seq<char>,
    service: PrincipalModel,
) -> PrincipalModel {
    if current_realm == service.realm {
        service
    } else {
        PrincipalModel {
            realm: current_realm,
            name_type: KRB_NT_SRV_INST,
            components: seq!["krbtgt"@, service.realm],
        }
    }
}

/// The service to ask the current realm's KDC for.
pub fn referral_request_service(current_realm: &String, service: &Principal) -> (r: Principal)
    ensures
        r@ == spec_referral_request_service(current_realm@, service@),
{
    if *current_realm == service.realm {
        super::ap_req::copy_principal(service)
    } else {
        let mut components: Vec<String> = Vec::new();
        components.push("krbtgt".to_owned());
        components.push(copy_string(&service.realm));
        let r = Principal::new(copy_string(current_realm), KRB_NT_SRV_INST, components);
        proof {
            reveal_strlit("krbtgt");
            assert(crate::text::spec_string_views(r.components@) =~= seq!["krbtgt"@, service@.realm]);
        }
        r
    }
}

/// What a ticket returned during referral following means.
#[derive(Debug)]
pub enum ReferralDecision {
    /// The ticket is for the service: done.
    ServiceTicket,
    /// The ticket is a TGT for this next realm: ask it next.
    Follow {
        /// Realm of the next KDC.
        realm: String,
    },
    /// Stop with this error.
    Fail(Error),
}

/// What a ticket for `ticket_service`, received from `current_realm`
/// after `hops` referrals out of at most `max`, means for a request for
/// `service`: the service ticket when it names the service; an
/// `InvalidReferralTicket` when it is a TGT for the same realm; a
/// `ServicePrincipalMismatch` when it is neither; a referral to its realm,
/// unless `max` referrals were followed already (`MaxReferralDepth`).
pub open spec fn spec_referral_decision(
    current_realm: Seq<char>,
    service: PrincipalModel,
    ticket_service: PrincipalModel,
    hops: usize,
    max: usize,
    r: ReferralDecision,
) -> bool {
    if spec_principal_matches(ticket_service, service) {
        r is ServiceTicket
    } else if !spec_is_tgt_principal(ticket_service) {
        r matches ReferralDecision::Fail(Error::ServicePrincipalMismatch { expected, actual })
            && expected@ == spec_join(service.components, seq!['/']) && actual@ == spec_join(
            ticket_service.components,
            seq!['/'],
        )
    } else if ticket_service.components.last() == current_realm {
        r matches ReferralDecision::Fail(Error::InvalidReferralTicket { service: s }) && s@
            == spec_join(ticket_service.components, seq!['/'])
    } else if hops >= max {
        r matches ReferralDecision::Fail(Error::MaxReferralDepth { max: m }) && m == max
    } else {
        r matches ReferralDecision::Follow { realm } && realm@ == ticket_service.components.last()
    }
}

/// Decide what a ticket returned during referral following means; `hops`
/// counts the referrals followed before this ticket.
pub fn referral_decision(
    current_realm: &String,
    service: &Principal,
    ticket: &AsRepSession,
    hops: usize,
    max: usize,
) -> (r: ReferralDecision)
    ensures
        spec_referral_decision(current_realm@, service@, ticket.service@, hops, max, r),
{
    if principal_matches(&ticket.service, service) {
        return ReferralDecision::ServiceTicket;
    }
    let referred = match super::session::tgt_realm(ticket) {
        Some(r) => r,
        None => return ReferralDecision::Fail(
            Error::ServicePrincipalMismatch { expected: service.name(), actual: ticket.service.name() },
        ),
    };
    if referred == *current_realm {
        return ReferralDecision::Fail(Error::InvalidReferralTicket { service: ticket.service.name() });
    }
    if hops >= max {
        return ReferralDecision::Fail(Error::MaxReferralDepth { max });
    }
    ReferralDecision::Follow { realm: referred }
}

} // verus!
