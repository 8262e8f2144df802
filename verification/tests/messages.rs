use rskrb5::asn1::{der_int, time_content, tlv};
use rskrb5::client::ap_req::{build_ap_req_with_confounder, ticket_info, ticket_realm};
use rskrb5::client::kdc_req::{build_as_req, build_tgs_req_for_realm_with_confounder, build_tgt_as_req};
use rskrb5::client::{
    ApReqOptions, AsRepSession, AsReqOptions, Error, PaData, Principal, TgsReqOptions, UnixTime,
};
use rskrb5::crypto::KerberosEtype;
use rskrb5::keytab::EncryptionKey;

fn t(seconds: i64) -> UnixTime {
    UnixTime { seconds, nanos: 0 }
}

fn ctx(n: u8, content: &[u8]) -> Vec<u8> {
    tlv(0xa0 + n, content)
}

fn gs(s: &str) -> Vec<u8> {
    tlv(0x1b, s.as_bytes())
}

fn seq(parts: &[Vec<u8>]) -> Vec<u8> {
    tlv(0x30, &parts.concat())
}

fn pname(name_type: i64, comps: &[&str]) -> Vec<u8> {
    let strings: Vec<Vec<u8>> = comps.iter().map(|c| gs(c)).collect();
    seq(&[ctx(0, &der_int(name_type)), ctx(1, &seq(&strings))])
}

fn ticket(realm: &str, sname: &[&str], kvno: Option<i64>) -> Vec<u8> {
    let mut enc = vec![ctx(0, &der_int(18))];
    if let Some(k) = kvno {
        enc.push(ctx(1, &der_int(k)));
    }
    enc.push(ctx(2, &tlv(0x04, &[1, 2, 3, 4])));
    let body = seq(&[
        ctx(0, &der_int(5)),
        ctx(1, &gs(realm)),
        ctx(2, &pname(2, sname)),
        ctx(3, &seq(&enc)),
    ]);
    tlv(0x61, &body)
}

fn session(ticket: Vec<u8>, service: Principal) -> AsRepSession {
    AsRepSession {
        client: Principal::user("EXAMPLE.COM".to_owned(), "alice".to_owned()),
        service,
        session_key: EncryptionKey { etype: 18, value: vec![7; 32] },
        ticket,
        ticket_flags: [0; 4],
        auth_time: t(1_700_000_000),
        start_time: t(1_700_000_000),
        end_time: t(1_700_036_000),
        renew_till: None,
        key_expiration: None,
    }
}

#[test]
fn der_integers_are_minimal_twos_complement() {
    assert_eq!(der_int(0), vec![2, 1, 0]);
    assert_eq!(der_int(127), vec![2, 1, 0x7f]);
    assert_eq!(der_int(128), vec![2, 2, 0, 0x80]);
    assert_eq!(der_int(256), vec![2, 2, 1, 0]);
    assert_eq!(der_int(-1), vec![2, 1, 0xff]);
    assert_eq!(der_int(-128), vec![2, 1, 0x80]);
    assert_eq!(der_int(-129), vec![2, 2, 0xff, 0x7f]);
    assert_eq!(der_int(0xffff_ffff), vec![2, 5, 0, 0xff, 0xff, 0xff, 0xff]);
}

#[test]
fn der_lengths_use_long_form_from_128() {
    assert_eq!(tlv(0x04, &[0; 127])[..2], [0x04, 0x7f]);
    assert_eq!(tlv(0x04, &[0; 128])[..3], [0x04, 0x81, 0x80]);
    assert_eq!(tlv(0x04, &[0; 300])[..4], [0x04, 0x82, 0x01, 0x2c]);
}

#[test]
fn generalized_times_in_utc() {
    assert_eq!(time_content(0).unwrap(), b"19700101000000Z".to_vec());
    assert_eq!(time_content(1_700_000_000).unwrap(), b"20231114221320Z".to_vec());
    assert_eq!(time_content(-1).unwrap(), b"19691231235959Z".to_vec());
    assert_eq!(time_content(253_402_300_800), None);
}

#[test]
fn as_req_encodes_request_fields() {
    let client = Principal::user("EXAMPLE.COM".to_owned(), "alice".to_owned());
    let service = Principal::tgt_service("EXAMPLE.COM".to_owned());
    let options = AsReqOptions::new(t(1_700_000_000), 0x1234_5678).with_etypes(vec![18, 17]);
    let built = build_as_req(client.clone(), service.clone(), options).unwrap();
    let body = seq(&[
        ctx(0, &tlv(0x03, &[0, 0, 0, 0, 0])),
        ctx(1, &pname(1, &["alice"])),
        ctx(2, &gs("EXAMPLE.COM")),
        ctx(3, &pname(2, &["krbtgt", "EXAMPLE.COM"])),
        ctx(5, &tlv(0x18, b"20231115221320Z")),
        ctx(7, &der_int(0x1234_5678)),
        ctx(8, &seq(&[der_int(18), der_int(17)])),
    ]);
    let expected = tlv(0x6a, &seq(&[ctx(1, &der_int(5)), ctx(2, &der_int(10)), ctx(4, &body)]));
    assert_eq!(built.der, expected);
    assert_eq!(built.client, client);
    assert_eq!(built.service, service);
    assert_eq!(built.nonce, 0x1234_5678);
}

#[test]
fn as_req_with_renewal_and_padata() {
    let client = Principal::user("R".to_owned(), "u".to_owned());
    let options = AsReqOptions::new(t(0), 1)
        .with_ticket_lifetime(60)
        .with_renew_lifetime(Some(120))
        .with_padata(vec![PaData { padata_type: 149, padata_value: vec![] }]);
    let built = build_tgt_as_req(client, options).unwrap();
    let body = seq(&[
        ctx(0, &tlv(0x03, &[0, 0, 0x80, 0, 0])),
        ctx(1, &pname(1, &["u"])),
        ctx(2, &gs("R")),
        ctx(3, &pname(2, &["krbtgt", "R"])),
        ctx(5, &tlv(0x18, b"19700101000100Z")),
        ctx(6, &tlv(0x18, b"19700101000200Z")),
        ctx(7, &der_int(1)),
        ctx(8, &seq(&[der_int(20), der_int(19), der_int(18), der_int(17)])),
    ]);
    let padata = seq(&[seq(&[ctx(1, &der_int(149)), ctx(2, &tlv(0x04, &[]))])]);
    let expected = tlv(
        0x6a,
        &seq(&[ctx(1, &der_int(5)), ctx(2, &der_int(10)), ctx(3, &padata), ctx(4, &body)]),
    );
    assert_eq!(built.der, expected);
}

#[test]
fn as_req_errors() {
    let client = Principal::user("R".to_owned(), "u".to_owned());
    let service = Principal::tgt_service("R".to_owned());
    let empty = AsReqOptions::new(t(0), 1).with_etypes(Vec::new());
    assert!(matches!(build_as_req(client.clone(), service.clone(), empty), Err(Error::EmptyEtypes)));
    let late = AsReqOptions::new(t(i64::MAX - 10), 1);
    assert!(matches!(build_as_req(client.clone(), service.clone(), late), Err(Error::TimeOverflow)));
    let far = AsReqOptions::new(t(253_402_300_000), 1);
    assert!(matches!(build_as_req(client, service, far), Err(Error::TimeOverflow)));
}

#[test]
fn ticket_facts_are_read_from_der() {
    let tgt = ticket("EXAMPLE.COM", &["krbtgt", "EXAMPLE.COM"], Some(2));
    let info = ticket_info(&tgt).unwrap();
    assert!(info.for_tgs);
    assert_eq!(info.kvno, Some(2));
    assert_eq!(ticket_realm(&tgt).unwrap(), b"EXAMPLE.COM".to_vec());
    let svc = ticket("EXAMPLE.COM", &["HTTP", "web"], None);
    let info = ticket_info(&svc).unwrap();
    assert!(!info.for_tgs);
    assert_eq!(info.kvno, None);
    assert!(ticket_info(&[0x61, 0x00]).is_none());
    assert!(ticket_info(&[0x30, 0x00]).is_none());
}

#[test]
fn ap_req_wraps_ticket_and_decryptable_authenticator() {
    let tk = ticket("EXAMPLE.COM", &["HTTP", "web"], Some(3));
    let service = Principal::new("EXAMPLE.COM".to_owned(), 2, vec!["HTTP".to_owned(), "web".to_owned()]);
    let s = session(tk.clone(), service);
    let confounder = [9u8; 16];
    let built = build_ap_req_with_confounder(
        &s,
        ApReqOptions::new().with_sequence_number(Some(42)),
        t(1_700_000_000),
        123,
        &confounder,
    )
    .unwrap();
    assert_eq!(built.der[0], 0x6e);
    assert_eq!(built.authenticator_cusec, 123);
    assert_eq!(built.authenticator_time, UnixTime { seconds: 1_700_000_000, nanos: 123_000 });
    assert_eq!(built.sequence_number, Some(42));
    let authenticator = tlv(
        0x62,
        &seq(&[
            ctx(0, &der_int(5)),
            ctx(1, &gs("EXAMPLE.COM")),
            ctx(2, &pname(1, &["alice"])),
            ctx(4, &der_int(123)),
            ctx(5, &tlv(0x18, b"20231114221320Z")),
            ctx(7, &der_int(42)),
        ]),
    );
    let etype = KerberosEtype::from_etype_id(18).unwrap();
    let cipher = etype.encrypt_message_with_confounder(&[7; 32], &authenticator, 11, &confounder).unwrap();
    assert_eq!(etype.decrypt_message(&[7; 32], &cipher, 11).unwrap(), authenticator);
    let enc = seq(&[ctx(0, &der_int(18)), ctx(1, &der_int(3)), ctx(2, &tlv(0x04, &cipher))]);
    let expected = tlv(
        0x6e,
        &seq(&[
            ctx(0, &der_int(5)),
            ctx(1, &der_int(14)),
            ctx(2, &tlv(0x03, &[0, 0, 0, 0, 0])),
            ctx(3, &tk),
            ctx(4, &enc),
        ]),
    );
    assert_eq!(built.der, expected);
}

#[test]
fn ap_req_errors() {
    let service = Principal::tgt_service("R".to_owned());
    let bad = session(vec![1, 2, 3], service.clone());
    assert!(matches!(
        build_ap_req_with_confounder(&bad, ApReqOptions::new(), t(0), 0, &[0; 16]),
        Err(Error::InvalidTicket)
    ));
    let mut odd = session(ticket("R", &["krbtgt", "R"], None), service);
    odd.session_key.etype = 99;
    assert!(matches!(
        build_ap_req_with_confounder(&odd, ApReqOptions::new(), t(0), 0, &[0; 16]),
        Err(Error::UnsupportedEtype(99))
    ));
}

#[test]
fn tgs_req_carries_ap_req_then_body() {
    let tk = ticket("EXAMPLE.COM", &["krbtgt", "EXAMPLE.COM"], None);
    let s = session(tk.clone(), Principal::tgt_service("EXAMPLE.COM".to_owned()));
    let service = Principal::new("EXAMPLE.COM".to_owned(), 2, vec!["HTTP".to_owned(), "web".to_owned()]);
    let options = TgsReqOptions::new(t(1_700_000_000), 5).with_etypes(vec![18]);
    let built = build_tgs_req_for_realm_with_confounder(
        &s,
        "EXAMPLE.COM".to_owned(),
        service.clone(),
        options,
        t(1_700_000_000),
        0,
        &[1; 16],
    )
    .unwrap();
    assert_eq!(built.der[0], 0x6c);
    assert_eq!(built.service, service);
    assert_eq!(built.kdc_realm, "EXAMPLE.COM");
    assert_eq!(built.nonce, 5);
    let body = seq(&[
        ctx(0, &tlv(0x03, &[0, 0, 0, 0, 0])),
        ctx(1, &pname(1, &["alice"])),
        ctx(2, &gs("EXAMPLE.COM")),
        ctx(3, &pname(2, &["HTTP", "web"])),
        ctx(5, &tlv(0x18, b"20231115221320Z")),
        ctx(7, &der_int(5)),
        ctx(8, &seq(&[der_int(18)])),
    ]);
    let tail = ctx(4, &body);
    assert!(built.der.ends_with(&tail));
}

#[test]
fn tgs_req_rejects_unreadable_ticket() {
    let s = session(vec![0x61, 0x01, 0x00], Principal::tgt_service("R".to_owned()));
    let r = build_tgs_req_for_realm_with_confounder(
        &s,
        "R".to_owned(),
        Principal::tgt_service("R".to_owned()),
        TgsReqOptions::new(t(0), 1),
        t(0),
        0,
        &[0; 16],
    );
    assert!(matches!(r, Err(Error::InvalidTicket)));
}

use rskrb5::client::kdc_rep::{process_as_rep, process_tgs_rep, process_tgs_rep_with_referral};
use rskrb5::client::login::{login_step, KdcReplyKind, LoginAction, LoginEvent, LoginState, TgtStatus};
use rskrb5::client::referral::{referral_decision, referral_request_service, ReferralDecision};
use rskrb5::client::{BuiltAsReq, BuiltTgsReq, PreauthKeyInfo};

fn gtime(s: &str) -> Vec<u8> {
    tlv(0x18, s.as_bytes())
}

fn enc_part(app: u8, nonce: i64, srealm: &str, sname: &[&str], start: Option<&str>) -> Vec<u8> {
    let key = seq(&[ctx(0, &der_int(18)), ctx(1, &tlv(0x04, &[5; 32]))]);
    let mut fields = vec![
        ctx(0, &key),
        ctx(1, &seq(&[])),
        ctx(2, &der_int(nonce)),
        ctx(4, &tlv(0x03, &[0, 0x40, 0xe1, 0, 0])),
        ctx(5, &gtime("20231114221320Z")),
    ];
    if let Some(s) = start {
        fields.push(ctx(6, &gtime(s)));
    }
    fields.push(ctx(7, &gtime("20231115081320Z")));
    fields.push(ctx(9, &gs(srealm)));
    fields.push(ctx(10, &pname(2, sname)));
    tlv(app, &seq(&fields))
}

fn kdc_rep(app: u8, msg_type: i64, crealm: &str, cname: &[&str], tk: &[u8], etype: i64, cipher: &[u8]) -> Vec<u8> {
    tlv(
        app,
        &seq(&[
            ctx(0, &der_int(5)),
            ctx(1, &der_int(msg_type)),
            ctx(3, &gs(crealm)),
            ctx(4, &pname(1, cname)),
            ctx(5, tk),
            ctx(6, &seq(&[ctx(0, &der_int(etype)), ctx(2, &tlv(0x04, cipher))])),
        ]),
    )
}

fn as_request() -> BuiltAsReq {
    BuiltAsReq {
        der: Vec::new(),
        client: Principal::user("EXAMPLE.COM".to_owned(), "alice".to_owned()),
        service: Principal::tgt_service("EXAMPLE.COM".to_owned()),
        nonce: 77,
    }
}

#[test]
fn as_rep_is_decrypted_and_checked() {
    let key = EncryptionKey { etype: 18, value: vec![3; 32] };
    let e = KerberosEtype::from_etype_id(18).unwrap();
    let plain = enc_part(0x79, 77, "EXAMPLE.COM", &["krbtgt", "EXAMPLE.COM"], None);
    let cipher = e.encrypt_message_with_confounder(&key.value, &plain, 3, &[4; 16]).unwrap();
    let tk = ticket("EXAMPLE.COM", &["krbtgt", "EXAMPLE.COM"], Some(1));
    let rep = kdc_rep(0x6b, 11, "EXAMPLE.COM", &["alice"], &tk, 18, &cipher);
    let s = process_as_rep(&as_request(), &rep, &key).unwrap();
    assert_eq!(s.client, Principal::user("EXAMPLE.COM".to_owned(), "alice".to_owned()));
    assert_eq!(s.service.components, vec!["krbtgt".to_owned(), "EXAMPLE.COM".to_owned()]);
    assert_eq!(s.session_key, EncryptionKey { etype: 18, value: vec![5; 32] });
    assert_eq!(s.ticket, tk);
    assert_eq!(s.ticket_flags, [0x40, 0xe1, 0, 0]);
    assert_eq!(s.auth_time, t(1_700_000_000));
    assert_eq!(s.start_time, t(1_700_000_000));
    assert_eq!(s.end_time, t(1_700_036_000));
    assert_eq!(s.renew_till, None);
}

#[test]
fn as_rep_errors() {
    let key = EncryptionKey { etype: 18, value: vec![3; 32] };
    let e = KerberosEtype::from_etype_id(18).unwrap();
    let tk = ticket("EXAMPLE.COM", &["krbtgt", "EXAMPLE.COM"], Some(1));
    let plain = enc_part(0x79, 78, "EXAMPLE.COM", &["krbtgt", "EXAMPLE.COM"], None);
    let cipher = e.encrypt_message_with_confounder(&key.value, &plain, 3, &[4; 16]).unwrap();
    let rep = kdc_rep(0x6b, 11, "EXAMPLE.COM", &["alice"], &tk, 18, &cipher);
    assert!(matches!(
        process_as_rep(&as_request(), &rep, &key),
        Err(Error::NonceMismatch { expected: 77, actual: 78 })
    ));
    let other = kdc_rep(0x6b, 11, "EXAMPLE.COM", &["bob"], &tk, 18, &cipher);
    assert!(matches!(
        process_as_rep(&as_request(), &other, &key),
        Err(Error::ClientPrincipalMismatch { .. })
    ));
    let wrong_etype = kdc_rep(0x6b, 11, "EXAMPLE.COM", &["alice"], &tk, 17, &cipher);
    assert!(matches!(
        process_as_rep(&as_request(), &wrong_etype, &key),
        Err(Error::KeyEtypeMismatch { key_etype: 18, encrypted_data_etype: 17 })
    ));
    let bad_key = EncryptionKey { etype: 18, value: vec![9; 32] };
    assert!(matches!(process_as_rep(&as_request(), &rep, &bad_key), Err(Error::Crypto(_))));
    assert!(matches!(process_as_rep(&as_request(), &[0x6b, 0], &key), Err(Error::InvalidReply)));
    let krb_error = tlv(
        0x7e,
        &seq(&[
            ctx(0, &der_int(5)),
            ctx(1, &der_int(30)),
            ctx(4, &gtime("20231114221320Z")),
            ctx(5, &der_int(0)),
            ctx(6, &der_int(25)),
        ]),
    );
    assert!(matches!(process_as_rep(&as_request(), &krb_error, &key), Err(Error::Kdc { error_code: 25 })));
}

#[test]
fn tgs_rep_referral_and_start_time() {
    let key = EncryptionKey { etype: 18, value: vec![6; 32] };
    let e = KerberosEtype::from_etype_id(18).unwrap();
    let tk = ticket("EXAMPLE.COM", &["krbtgt", "OTHER.COM"], None);
    let plain = enc_part(0x7a, 9, "EXAMPLE.COM", &["krbtgt", "OTHER.COM"], Some("20231114221400Z"));
    let cipher = e.encrypt_message_with_confounder(&key.value, &plain, 8, &[2; 16]).unwrap();
    let rep = kdc_rep(0x6d, 13, "EXAMPLE.COM", &["alice"], &tk, 18, &cipher);
    let request = BuiltTgsReq {
        der: Vec::new(),
        client: Principal::user("EXAMPLE.COM".to_owned(), "alice".to_owned()),
        service: Principal::new("OTHER.COM".to_owned(), 2, vec!["HTTP".to_owned(), "web".to_owned()]),
        kdc_realm: "EXAMPLE.COM".to_owned(),
        nonce: 9,
    };
    assert!(matches!(process_tgs_rep(&request, &rep, &key), Err(Error::ServicePrincipalMismatch { .. })));
    let s = process_tgs_rep_with_referral(&request, &rep, &key).unwrap();
    assert_eq!(s.start_time, t(1_700_000_040));
}

#[test]
fn login_steps() {
    let (s, a) = login_step(
        LoginState::Idle,
        LoginEvent::Start { has_credentials: false, tgt: TgtStatus::Renewable, etypes: vec![18] },
    );
    assert_eq!(s, LoginState::Finished);
    assert!(matches!(a, LoginAction::RenewTgt));
    let (_, a) = login_step(
        LoginState::Idle,
        LoginEvent::Start { has_credentials: false, tgt: TgtStatus::Missing, etypes: vec![18] },
    );
    assert!(matches!(a, LoginAction::Fail(Error::NoClientCredentials)));
    let (s, a) = login_step(
        LoginState::Idle,
        LoginEvent::Start { has_credentials: true, tgt: TgtStatus::Valid, etypes: vec![18, 17] },
    );
    assert!(matches!(a, LoginAction::SendInitialRequest));
    let hint = PreauthKeyInfo { etype: 17, salt: Some("SALT".to_owned()), s2kparams: None };
    let (s, a) = login_step(
        s,
        LoginEvent::Reply(KdcReplyKind::KdcError { error_code: 25, key_info: vec![hint.clone()] }),
    );
    assert!(matches!(a, LoginAction::SendPreauthRequest { ref key_info } if *key_info == hint));
    let (s, a) = login_step(s, LoginEvent::Reply(KdcReplyKind::AsRep { etype: 17 }));
    assert_eq!(s, LoginState::Finished);
    assert!(matches!(a, LoginAction::ProcessReply { ref key_info } if *key_info == hint));
    let (_, a) = login_step(
        LoginState::AwaitingInitialReply { etypes: vec![18] },
        LoginEvent::Reply(KdcReplyKind::KdcError { error_code: 6, key_info: Vec::new() }),
    );
    assert!(matches!(a, LoginAction::Fail(Error::Kdc { error_code: 6 })));
    let (_, a) = login_step(
        LoginState::AwaitingInitialReply { etypes: vec![18] },
        LoginEvent::Reply(KdcReplyKind::AsRep { etype: 18 }),
    );
    assert!(matches!(a, LoginAction::ProcessReply { ref key_info } if key_info.etype == 18 && key_info.salt.is_none()));
    let (_, a) = login_step(LoginState::Finished, LoginEvent::Reply(KdcReplyKind::AsRep { etype: 18 }));
    assert!(matches!(a, LoginAction::Fail(Error::UnexpectedLoginEvent)));
}

#[test]
fn referral_decisions() {
    let service = Principal::new("OTHER.COM".to_owned(), 2, vec!["HTTP".to_owned(), "web".to_owned()]);
    let asked = referral_request_service(&"EXAMPLE.COM".to_owned(), &service);
    assert_eq!(asked.realm, "EXAMPLE.COM");
    assert_eq!(asked.components, vec!["krbtgt".to_owned(), "OTHER.COM".to_owned()]);
    assert_eq!(referral_request_service(&"OTHER.COM".to_owned(), &service), service);
    let tgt = session(Vec::new(), Principal::tgt_service("OTHER.COM".to_owned()));
    let mut cross = tgt.clone();
    cross.service = Principal::new("EXAMPLE.COM".to_owned(), 2, vec!["krbtgt".to_owned(), "OTHER.COM".to_owned()]);
    assert!(matches!(
        referral_decision(&"EXAMPLE.COM".to_owned(), &service, &cross, 0, 10),
        ReferralDecision::Follow { ref realm } if realm == "OTHER.COM"
    ));
    assert!(matches!(
        referral_decision(&"EXAMPLE.COM".to_owned(), &service, &cross, 10, 10),
        ReferralDecision::Fail(Error::MaxReferralDepth { max: 10 })
    ));
    assert!(matches!(
        referral_decision(&"OTHER.COM".to_owned(), &service, &cross, 0, 10),
        ReferralDecision::Fail(Error::InvalidReferralTicket { .. })
    ));
    let mut done = tgt.clone();
    done.service = service.clone();
    assert!(matches!(
        referral_decision(&"OTHER.COM".to_owned(), &service, &done, 0, 10),
        ReferralDecision::ServiceTicket
    ));
}
