use rskrb5::ccache;
use rskrb5::client::session::{
    ccache_credential_session, client_principal_from_ccache, diagnostics, is_tgt_principal,
    keytab_realm_enctypes, preferred_session_at, prefer_current_session_at, principal_matches,
    protocol_label, record_keytab_enctype_diagnostics, service_cache_key, session_refresh_delay_at,
    session_refresh_due_at, session_renewable_at, session_usable_at, session_valid_at,
    system_time_from_u32_seconds, tgt_realm,
};
use rskrb5::client::{
    assumed_preauth_key_info, renewal_kdc_option_bits, request_kdc_option_bits,
    select_keytab_reply_key_for_etype, AsRepSession, Error, KdcProtocol, Principal, UnixTime,
    KDC_OPTION_RENEW, KDC_OPTION_RENEWABLE,
};
use rskrb5::client::{
    select_assumed_keytab_reply_key, select_preauth_key_info, validate_client_configuration,
    PreauthKeyInfo,
};
use rskrb5::config::{Config, LibDefaults};
use rskrb5::keytab::{self, Keytab};

fn t(seconds: i64) -> UnixTime {
    UnixTime { seconds, nanos: 0 }
}

fn session(auth: i64, start: i64, end: i64, renew: Option<i64>) -> AsRepSession {
    AsRepSession {
        client: Principal::user("R".to_owned(), "u".to_owned()),
        service: Principal::tgt_service("R".to_owned()),
        session_key: keytab::EncryptionKey { etype: 18, value: vec![1; 32] },
        ticket: vec![1, 2, 3],
        ticket_flags: [0x40, 0, 0, 0],
        auth_time: t(auth),
        start_time: t(start),
        end_time: t(end),
        renew_till: renew.map(t),
        key_expiration: None,
    }
}

#[test]
fn session_validity_window() {
    let s = session(100, 100, 700, None);
    assert!(!session_valid_at(&s, t(99)));
    assert!(session_valid_at(&s, t(100)));
    assert!(session_valid_at(&s, UnixTime { seconds: 699, nanos: 999_999_999 }));
    assert!(!session_valid_at(&s, t(700)));
    assert!(!session_renewable_at(&s, t(100)));
    assert!(!session_usable_at(&s, t(700)));
    let r = session(100, 100, 700, Some(1000));
    assert!(session_renewable_at(&r, t(999)));
    assert!(!session_renewable_at(&r, t(1000)));
    assert!(session_usable_at(&r, t(800)));
}

#[test]
fn session_refresh_after_five_sixths_of_the_lifetime() {
    // lifetime 600 s: due once 100 s or less remain
    let s = session(100, 100, 700, None);
    assert!(!session_refresh_due_at(&s, t(599)));
    assert_eq!(session_refresh_delay_at(&s, t(599)), 1_000_000_000);
    assert!(session_refresh_due_at(&s, t(600)));
    assert_eq!(session_refresh_delay_at(&s, t(600)), 0);
    assert!(session_refresh_due_at(&s, t(700)));
    assert_eq!(session_refresh_delay_at(&s, t(100)), 500_000_000_000);
    // a non-positive lifetime is always due
    let z = session(700, 700, 700, None);
    assert!(session_refresh_due_at(&z, t(0)));
    let backwards = session(800, 100, 700, None);
    assert!(session_refresh_due_at(&backwards, t(0)));
    assert_eq!(session_refresh_delay_at(&backwards, t(0)), 0);
}

#[test]
fn session_preference() {
    let now = t(500);
    let valid_short = session(0, 0, 600, None);
    let valid_long = session(0, 0, 900, None);
    let expired = session(0, 0, 400, None);
    let future = session(0, 600, 2000, None);
    assert!(prefer_current_session_at(&valid_short, &expired, now));
    assert!(!prefer_current_session_at(&expired, &valid_short, now));
    assert!(!prefer_current_session_at(&valid_short, &valid_long, now));
    assert!(prefer_current_session_at(&valid_long, &valid_long.clone(), now));
    assert!(!prefer_current_session_at(&expired, &future, now));
    assert_eq!(preferred_session_at(None, expired.clone(), now), expired);
    assert_eq!(preferred_session_at(Some(valid_long.clone()), valid_short.clone(), now), valid_long);
    assert_eq!(preferred_session_at(Some(expired.clone()), valid_short.clone(), now), valid_short);
}

#[test]
fn session_principal_helpers() {
    let a = Principal::new("R".to_owned(), 1, vec!["HTTP".to_owned(), "web".to_owned()]);
    let b = Principal::new("R".to_owned(), 2, vec!["HTTP".to_owned(), "web".to_owned()]);
    assert!(principal_matches(&a, &b));
    assert!(!principal_matches(&a, &Principal::user("R".to_owned(), "HTTP".to_owned())));
    assert_eq!(service_cache_key(&a), "R\0HTTP\0web");
    assert_eq!(service_cache_key(&Principal::new("S".to_owned(), 1, vec![])), "S");
    assert!(is_tgt_principal(&Principal::tgt_service("R".to_owned())));
    assert!(is_tgt_principal(&Principal::new("R".to_owned(), 2, vec!["KrbTgt".to_owned(), "X".to_owned()])));
    assert!(!is_tgt_principal(&Principal::new("R".to_owned(), 2, vec!["krbtgt".to_owned()])));
    assert!(!is_tgt_principal(&a));
    let s = session(0, 0, 10, None);
    assert_eq!(tgt_realm(&s), Some("R".to_owned()));
    let mut other = s.clone();
    other.service = a.clone();
    assert_eq!(tgt_realm(&other), None);
    assert_eq!(system_time_from_u32_seconds(7), t(7));
}

#[test]
fn session_written_to_a_ccache_reads_back() {
    let s = session(100, 101, 700, Some(1000));
    let cred = s.to_ccache_credential().unwrap();
    assert_eq!(ccache_credential_session(&cred), s);
    let p = ccache::Principal::new("R".to_owned(), 10, vec!["a".to_owned()]);
    assert_eq!(client_principal_from_ccache(&p), Principal::new("R".to_owned(), 10, vec!["a".to_owned()]));
}

#[test]
fn session_from_ccache_defaults() {
    let mut cred = session(100, 101, 700, None).to_ccache_credential().unwrap();
    cred.times.start_time = 0;
    cred.times.renew_till = 0;
    let s = ccache_credential_session(&cred);
    assert_eq!(s.start_time, t(100));
    assert_eq!(s.renew_till, None);
    assert_eq!(s.key_expiration, None);
}

#[test]
fn session_keytab_enctypes_and_diagnostics() {
    let mut kt = Keytab::new();
    let p = keytab::Principal::new("R".to_owned(), 1, vec!["u".to_owned()]);
    let q = keytab::Principal::new("Q".to_owned(), 1, vec!["u".to_owned()]);
    for (pr, etype) in [(&p, 18), (&p, 17), (&q, 23), (&p, 18), (&p, 16)] {
        kt.entries_mut().push(keytab::Entry {
            principal: pr.clone(),
            timestamp: 0,
            kvno8: 1,
            key: keytab::EncryptionKey { etype, value: vec![0] },
            kvno: 1,
        });
    }
    assert_eq!(keytab_realm_enctypes(&kt, "R"), vec![16, 17, 18]);
    assert_eq!(keytab_realm_enctypes(&kt, "Q"), vec![23]);
    assert!(keytab_realm_enctypes(&kt, "Z").is_empty());

    let mut errors = vec!["first".to_owned()];
    record_keytab_enctype_diagnostics(&mut errors, &[17, 18], &[18, 23, -5, 17], "default_tkt_enctypes");
    assert_eq!(
        errors,
        vec![
            "first".to_owned(),
            "default_tkt_enctypes specifies 23 but this enctype is not available in the client's keytab".to_owned(),
            "default_tkt_enctypes specifies -5 but this enctype is not available in the client's keytab".to_owned(),
        ]
    );
    assert_eq!(protocol_label(KdcProtocol::Udp), "UDP");
    assert_eq!(protocol_label(KdcProtocol::Tcp), "TCP");
    assert_eq!(protocol_label(KdcProtocol::Auto), "Auto");

    let ld = LibDefaults::new(None, None);
    let client = Principal::user("R".to_owned(), "u".to_owned());
    let d = diagnostics(
        &client,
        KdcProtocol::Auto,
        "keytab",
        true,
        2,
        3,
        &ld,
        Some(&kt),
        Some("no default realm".to_owned()),
        vec!["kdc:88".to_owned()],
        vec!["udp lookup failed".to_owned()],
        vec![],
        vec!["tcp lookup failed".to_owned()],
    );
    assert_eq!(d.client, "u");
    assert_eq!(d.realm, "R");
    assert_eq!(d.protocol, "Auto");
    assert_eq!(d.credential_source, "keytab");
    assert!(d.has_tgt);
    assert_eq!((d.tgt_session_count, d.service_ticket_cache_count), (2, 3));
    assert_eq!(d.keytab_enctypes, vec![16, 17, 18]);
    assert_eq!(d.default_tkt_enctypes, vec![18, 17, 23]);
    assert_eq!(d.preferred_preauth_types, vec![17, 16, 15, 14]);
    assert_eq!(
        d.errors,
        vec![
            "no default realm".to_owned(),
            "default_tkt_enctypes specifies 23 but this enctype is not available in the client's keytab".to_owned(),
            "preferred_preauth_types specifies 15 but this enctype is not available in the client's keytab".to_owned(),
            "preferred_preauth_types specifies 14 but this enctype is not available in the client's keytab".to_owned(),
            "udp lookup failed".to_owned(),
            "tcp lookup failed".to_owned(),
        ]
    );
    assert!(!d.is_ok());
    let none = diagnostics(&client, KdcProtocol::Udp, "password", false, 0, 0, &ld, None, None, vec![], vec![], vec![], vec![]);
    assert!(none.keytab_enctypes.is_empty());
    assert!(none.is_ok());
}

#[test]
fn session_preauth_and_kdc_options() {
    let info = assumed_preauth_key_info(&[1, 3, 17, 18]).unwrap();
    assert_eq!((info.etype, info.salt, info.s2kparams), (17, None, None));
    match assumed_preauth_key_info(&[1, 3]) {
        Err(Error::NoSupportedPreauthEtype { requested }) => assert_eq!(requested, vec![1, 3]),
        other => panic!("unexpected {:?}", other),
    }
    assert_eq!(request_kdc_option_bits(0x10, None), 0x10);
    assert_eq!(request_kdc_option_bits(0x10, Some(3600)), 0x10 | KDC_OPTION_RENEWABLE);
    assert_eq!(renewal_kdc_option_bits(0x10), 0x10 | KDC_OPTION_RENEWABLE | KDC_OPTION_RENEW);
    assert_eq!(renewal_kdc_option_bits(0), 0x0080_0002);

    let mut kt = Keytab::new();
    let p = keytab::Principal::new("R".to_owned(), 1, vec!["u".to_owned()]);
    kt.add_entry_from_password(p.clone(), b"one", 10, 1, 18).unwrap();
    kt.add_entry_from_password(p, b"two", 5, 2, 18).unwrap();
    let client = Principal::user("R".to_owned(), "u".to_owned());
    let (_, kvno) = select_keytab_reply_key_for_etype(&kt, &client, 0, 18).unwrap();
    assert_eq!(kvno, 1);
    let (key, kvno) = select_keytab_reply_key_for_etype(&kt, &client, 2, 18).unwrap();
    assert_eq!((kvno, key), (2, kt.entries()[1].key.clone()));
    assert!(matches!(select_keytab_reply_key_for_etype(&kt, &client, 3, 18), Err(Error::Keytab(_))));
}

#[test]
fn client_selects_assumed_keytab_key_by_requested_order() {
    let mut kt = Keytab::new();
    let p = keytab::Principal::new("R".to_owned(), 1, vec!["u".to_owned()]);
    kt.add_entry_from_password(p.clone(), b"a", 10, 1, 17).unwrap();
    kt.add_entry_from_password(p, b"b", 11, 2, 23).unwrap();
    let client = Principal::user("R".to_owned(), "u".to_owned());
    let (_, kvno) = select_assumed_keytab_reply_key(&kt, &client, &[1, 18, 23, 17]).unwrap();
    assert_eq!(kvno, 2);
    let (_, kvno) = select_assumed_keytab_reply_key(&kt, &client, &[17, 23]).unwrap();
    assert_eq!(kvno, 1);
    match select_assumed_keytab_reply_key(&kt, &client, &[18, 1]) {
        Err(Error::NoSupportedPreauthEtype { requested }) => assert_eq!(requested, vec![18, 1]),
        other => panic!("unexpected {:?}", other.map(|(_, v)| v)),
    }
}

#[test]
fn client_selects_preauth_hints() {
    let hints = vec![
        PreauthKeyInfo { etype: 23, salt: None, s2kparams: None },
        PreauthKeyInfo { etype: 18, salt: Some("SALT".to_owned()), s2kparams: Some(vec![0, 0, 16, 0]) },
        PreauthKeyInfo { etype: 18, salt: Some("OTHER".to_owned()), s2kparams: None },
    ];
    assert_eq!(select_preauth_key_info(&hints, &[1, 18, 23]).unwrap(), hints[1]);
    assert_eq!(select_preauth_key_info(&hints, &[23, 18]).unwrap(), hints[0]);
    assert!(matches!(
        select_preauth_key_info(&hints, &[17]),
        Err(Error::NoSupportedPreauthEtype { .. })
    ));
    let none: Vec<PreauthKeyInfo> = vec![];
    assert_eq!(
        select_preauth_key_info(&none, &[3, 17]).unwrap(),
        PreauthKeyInfo { etype: 17, salt: None, s2kparams: None }
    );
    assert!(matches!(select_preauth_key_info(&none, &[3]), Err(Error::NoSupportedPreauthEtype { .. })));
}

#[test]
fn client_configuration_checks() {
    let with_kdc = Config::parse("[libdefaults]\ndns_lookup_kdc = false\n[realms]\nR = {\nkdc = k\n}\n", LibDefaults::new(None, None)).unwrap();
    let no_dns = Config::parse("[libdefaults]\ndns_lookup_kdc = false\n", LibDefaults::new(None, None)).unwrap();
    let dns = Config::new(LibDefaults::new(None, None));
    let u = Principal::user("R".to_owned(), "u".to_owned());
    assert!(validate_client_configuration(&u, true, false, &with_kdc).is_ok());
    assert!(validate_client_configuration(&u, false, true, &dns).is_ok());
    assert!(matches!(
        validate_client_configuration(&Principal::new("R".to_owned(), 1, vec![]), true, true, &dns),
        Err(Error::MissingClientName)
    ));
    assert!(matches!(
        validate_client_configuration(&Principal::new("R".to_owned(), 1, vec!["a".to_owned(), String::new()]), true, true, &dns),
        Err(Error::MissingClientName)
    ));
    assert!(matches!(
        validate_client_configuration(&Principal::user(String::new(), "u".to_owned()), true, true, &dns),
        Err(Error::MissingClientRealm)
    ));
    assert!(matches!(validate_client_configuration(&u, false, false, &dns), Err(Error::NoClientCredentials)));
    match validate_client_configuration(&u, true, false, &no_dns) {
        Err(Error::NoConfiguredKdc { realm }) => assert_eq!(realm, "R"),
        other => panic!("unexpected {:?}", other),
    }
}
