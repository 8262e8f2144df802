use rskrb5::ccache::HostAddress;
use rskrb5::client::request::DEFAULT_TICKET_LIFETIME;
use rskrb5::client::reply::{as_rep_session, tgs_rep_session, tgs_rep_session_with_referral};
use rskrb5::client::{
    ApReqOptions, AsReqOptions, BuiltAsReq, BuiltTgsReq, Checksum, Error, KdcReplyParts,
    KpasswdRequestOptions, PaData, Principal, TgsReqOptions, UnixTime, KDC_OPTION_CANONICALIZE,
    KDC_OPTION_RENEW, KDC_OPTION_RENEWABLE,
};
use rskrb5::config::LibDefaults;
use rskrb5::keytab::EncryptionKey;

fn t(seconds: i64) -> UnixTime {
    UnixTime { seconds, nanos: 0 }
}

#[test]
fn as_req_options_defaults() {
    let o = AsReqOptions::new(t(10), 7);
    assert_eq!(o.now, t(10));
    assert_eq!(o.ticket_lifetime, 86400);
    assert_eq!(DEFAULT_TICKET_LIFETIME, 24 * 60 * 60);
    assert_eq!(o.renew_lifetime, None);
    assert_eq!(o.nonce, 7);
    assert_eq!(o.etypes, vec![20, 19, 18, 17]);
    assert_eq!(o.kdc_option_bits, 0);
    assert!(o.padata.is_empty());
    assert!(!o.assume_preauthentication);
    assert!(o.fast_negotiation);
}

#[test]
fn as_req_options_from_libdefaults() {
    let mut d = LibDefaults::new(None, None);
    d.ticket_lifetime = 3600;
    d.renew_lifetime = 7200;
    d.default_tkt_enctype_ids = vec![18];
    d.kdc_default_options = 0x10;
    d.canonicalize = true;
    let o = AsReqOptions::from_libdefaults(t(1), 2, &d);
    assert_eq!(o.ticket_lifetime, 3600);
    assert_eq!(o.renew_lifetime, Some(7200));
    assert_eq!(o.etypes, vec![18]);
    assert_eq!(o.kdc_option_bits, 0x10 | KDC_OPTION_CANONICALIZE);
    assert!(o.fast_negotiation);
}

#[test]
fn as_req_options_from_libdefaults_falls_back_to_defaults() {
    let mut d = LibDefaults::new(None, None);
    d.renew_lifetime = 0;
    d.default_tkt_enctype_ids = Vec::new();
    d.kdc_default_options = 0x20;
    d.canonicalize = false;
    let o = AsReqOptions::from_libdefaults(t(1), 2, &d);
    assert_eq!(o.renew_lifetime, None);
    assert_eq!(o.etypes, vec![20, 19, 18, 17]);
    assert_eq!(o.kdc_option_bits, 0x20);
}

#[test]
fn as_req_options_builders_replace_one_field() {
    let padata = vec![PaData { padata_type: 149, padata_value: Vec::new() }];
    let o = AsReqOptions::new(t(0), 1)
        .with_ticket_lifetime(60)
        .with_renew_lifetime(Some(120))
        .with_etypes(vec![23])
        .with_kdc_option_bits(4)
        .with_padata(padata.clone())
        .with_assume_preauthentication(true)
        .with_fast_negotiation(false);
    assert_eq!(o.ticket_lifetime, 60);
    assert_eq!(o.renew_lifetime, Some(120));
    assert_eq!(o.etypes, vec![23]);
    assert_eq!(o.kdc_option_bits, 4);
    assert_eq!(o.padata, padata);
    assert!(o.assume_preauthentication);
    assert!(!o.fast_negotiation);
    assert_eq!(o.nonce, 1);
}

#[test]
fn tgs_req_options_defaults_and_renewal() {
    let o = TgsReqOptions::new(t(5), 9);
    assert_eq!(o.etypes, vec![20, 19, 18, 17]);
    assert_eq!(o.ticket_lifetime, 86400);
    assert!(o.additional_tickets.is_empty());
    let renewed = o.with_kdc_option_bits(1).with_renewal();
    assert_eq!(renewed.kdc_option_bits, 1 | KDC_OPTION_RENEWABLE | KDC_OPTION_RENEW);
    assert_eq!(renewed.nonce, 9);
}

#[test]
fn tgs_req_options_from_libdefaults_uses_tgs_enctypes() {
    let mut d = LibDefaults::new(None, None);
    d.default_tgs_enctype_ids = vec![17, 23];
    d.default_tkt_enctype_ids = vec![18];
    d.renew_lifetime = 0;
    d.canonicalize = false;
    d.kdc_default_options = 0;
    let o = TgsReqOptions::from_libdefaults(t(1), 3, &d)
        .with_additional_tickets(vec![vec![0x61, 0x00]])
        .with_padata(vec![PaData { padata_type: 129, padata_value: vec![1] }]);
    assert_eq!(o.etypes, vec![17, 23]);
    assert_eq!(o.renew_lifetime, None);
    assert_eq!(o.additional_tickets, vec![vec![0x61, 0x00]]);
    assert_eq!(o.padata.len(), 1);
}

#[test]
fn ap_req_options_builders() {
    let o = ApReqOptions::default();
    assert_eq!(o, ApReqOptions::new());
    assert_eq!(o.ap_option_bits, 0);
    let key = EncryptionKey { etype: 18, value: vec![3; 32] };
    let o = o
        .with_ap_option_bits(0x2000_0000)
        .with_checksum(Some(Checksum { checksum_type: 0x8003, checksum: vec![0; 24] }))
        .with_subkey(Some(key.clone()))
        .with_sequence_number(Some(42));
    assert_eq!(o.ap_option_bits, 0x2000_0000);
    assert_eq!(o.checksum.as_ref().unwrap().checksum_type, 0x8003);
    assert_eq!(o.subkey, Some(key));
    assert_eq!(o.sequence_number, Some(42));
}

#[test]
fn kpasswd_request_options_recipient() {
    let sender = HostAddress { addr_type: 2, address: vec![10, 0, 0, 1] };
    let o = KpasswdRequestOptions::new(t(100), 5, 6, sender.clone());
    assert_eq!(o.recipient_address, None);
    let recipient = HostAddress { addr_type: 2, address: vec![10, 0, 0, 2] };
    let o = o.with_recipient_address(recipient.clone());
    assert_eq!(o.recipient_address, Some(recipient));
    assert_eq!(o.sender_address, sender);
    assert_eq!((o.cusec, o.sequence_number), (5, 6));
}

fn user() -> Principal {
    Principal::user("EXAMPLE.COM".to_owned(), "alice".to_owned())
}

fn http() -> Principal {
    Principal::new("EXAMPLE.COM".to_owned(), 2, vec!["HTTP".to_owned(), "web".to_owned()])
}

fn parts(client: Principal, service: Principal, ticket_service: Principal, nonce: u32) -> KdcReplyParts {
    KdcReplyParts {
        client,
        ticket_service,
        ticket: vec![0x61, 0x03, 1, 2, 3],
        nonce,
        service,
        session_key: EncryptionKey { etype: 18, value: vec![9; 32] },
        flags: vec![0x40, 0x81],
        auth_time: t(1000),
        start_time: None,
        end_time: t(2000),
        renew_till: Some(t(3000)),
        key_expiration: None,
    }
}

fn as_request() -> BuiltAsReq {
    BuiltAsReq { der: vec![0x6a], client: user(), service: Principal::tgt_service("EXAMPLE.COM".to_owned()), nonce: 77 }
}

fn tgs_request() -> BuiltTgsReq {
    BuiltTgsReq { der: vec![0x6c], client: user(), service: http(), kdc_realm: "EXAMPLE.COM".to_owned(), nonce: 88 }
}

#[test]
fn as_rep_session_accepts_matching_reply() {
    let tgt = Principal::tgt_service("EXAMPLE.COM".to_owned());
    let s = as_rep_session(&as_request(), parts(user(), tgt.clone(), tgt.clone(), 77)).unwrap();
    assert_eq!(s.client, user());
    assert_eq!(s.service, tgt);
    assert_eq!(s.ticket_flags, [0x40, 0x81, 0, 0]);
    assert_eq!(s.start_time, t(1000));
    assert_eq!(s.end_time, t(2000));
    assert_eq!(s.renew_till, Some(t(3000)));
    assert_eq!(s.ticket, vec![0x61, 0x03, 1, 2, 3]);
}

#[test]
fn as_rep_session_keeps_given_start_time() {
    let tgt = Principal::tgt_service("EXAMPLE.COM".to_owned());
    let mut p = parts(user(), tgt.clone(), tgt, 77);
    p.start_time = Some(t(1500));
    assert_eq!(as_rep_session(&as_request(), p).unwrap().start_time, t(1500));
}

#[test]
fn as_rep_session_rejects_other_client() {
    let tgt = Principal::tgt_service("EXAMPLE.COM".to_owned());
    let other = Principal::user("EXAMPLE.COM".to_owned(), "bob".to_owned());
    assert!(matches!(
        as_rep_session(&as_request(), parts(other, tgt.clone(), tgt, 77)),
        Err(Error::ClientPrincipalMismatch { expected, actual }) if expected == "alice" && actual == "bob"
    ));
}

#[test]
fn as_rep_session_rejects_other_nonce() {
    let tgt = Principal::tgt_service("EXAMPLE.COM".to_owned());
    assert!(matches!(
        as_rep_session(&as_request(), parts(user(), tgt.clone(), tgt, 78)),
        Err(Error::NonceMismatch { expected: 77, actual: 78 })
    ));
}

#[test]
fn as_rep_session_rejects_other_service() {
    let tgt = Principal::tgt_service("EXAMPLE.COM".to_owned());
    assert!(matches!(
        as_rep_session(&as_request(), parts(user(), http(), tgt, 77)),
        Err(Error::ServicePrincipalMismatch { expected, actual })
            if expected == "krbtgt/EXAMPLE.COM" && actual == "HTTP/web"
    ));
}

#[test]
fn as_rep_session_rejects_ticket_for_other_service() {
    let tgt = Principal::tgt_service("EXAMPLE.COM".to_owned());
    assert!(matches!(
        as_rep_session(&as_request(), parts(user(), tgt, http(), 77)),
        Err(Error::ServicePrincipalMismatch { expected, actual })
            if expected == "krbtgt/EXAMPLE.COM" && actual == "HTTP/web"
    ));
}

#[test]
fn tgs_rep_session_matches_ignoring_name_type() {
    let mut service = http();
    service.name_type = 1;
    let s = tgs_rep_session(&tgs_request(), parts(user(), service.clone(), service, 88)).unwrap();
    assert_eq!(s.service.name_type, 1);
}

#[test]
fn tgs_rep_referral_needs_permission() {
    let referral = Principal::tgt_service("OTHER.COM".to_owned());
    assert!(matches!(
        tgs_rep_session(&tgs_request(), parts(user(), referral.clone(), referral.clone(), 88)),
        Err(Error::ServicePrincipalMismatch { .. })
    ));
    let s = tgs_rep_session_with_referral(&tgs_request(), parts(user(), referral.clone(), referral.clone(), 88))
        .unwrap();
    assert_eq!(s.service, referral);
}

#[test]
fn tgs_rep_referral_still_checks_ticket_service() {
    let referral = Principal::tgt_service("OTHER.COM".to_owned());
    assert!(matches!(
        tgs_rep_session_with_referral(&tgs_request(), parts(user(), referral, http(), 88)),
        Err(Error::ServicePrincipalMismatch { expected, actual })
            if expected == "krbtgt/OTHER.COM" && actual == "HTTP/web"
    ));
}

#[test]
fn tgs_rep_with_referral_rejects_non_tgt_service() {
    let other = Principal::new("EXAMPLE.COM".to_owned(), 2, vec!["HTTP".to_owned(), "api".to_owned()]);
    assert!(matches!(
        tgs_rep_session_with_referral(&tgs_request(), parts(user(), other.clone(), other, 88)),
        Err(Error::ServicePrincipalMismatch { .. })
    ));
}
