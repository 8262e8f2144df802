use rskrb5::ccache;
use rskrb5::client::transport::Error as TransportError;
use rskrb5::client::{
    default_password_salt, derive_password_reply_key, s4u_byte_array, select_keytab_reply_key,
    AsRepSession, Error, KdcEndpoint, KdcEndpointSource, KdcProtocol, PreauthKeyInfo, Principal,
    PrunedSessions, TokioClientDiagnostics, TokioKdcTransport, UnixTime,
};
use rskrb5::crypto::KerberosEtype;
use rskrb5::keytab::{self, Keytab};

fn t(seconds: i64) -> UnixTime {
    UnixTime { seconds, nanos: 0 }
}

fn session() -> AsRepSession {
    AsRepSession {
        client: Principal::user("EXAMPLE.COM".to_owned(), "alice".to_owned()),
        service: Principal::tgt_service("EXAMPLE.COM".to_owned()),
        session_key: keytab::EncryptionKey { etype: 18, value: vec![1, 2, 3] },
        ticket: vec![0x61, 0x03, 0x02, 0x01, 0x05],
        ticket_flags: [0x40, 0xe1, 0, 0],
        auth_time: t(100),
        start_time: t(101),
        end_time: t(200),
        renew_till: Some(t(300)),
        key_expiration: None,
    }
}

#[test]
fn client_default_password_salt_is_realm_then_components() {
    let p = Principal::parse_service("HTTP/web@EXAMPLE.COM").unwrap();
    assert_eq!(default_password_salt(&p), "EXAMPLE.COMHTTPweb");
}

#[test]
fn client_derive_password_reply_key_uses_default_salt_and_params() {
    let p = Principal::user("ATHENA.MIT.EDU".to_owned(), "raeburn".to_owned());
    let info = PreauthKeyInfo { etype: 17, salt: None, s2kparams: None };
    let key = derive_password_reply_key(&p, b"password", &info).unwrap();
    let e = KerberosEtype::from_etype_id(17).unwrap();
    let expected = e.string_to_key(b"password", b"ATHENA.MIT.EDUraeburn", e.default_s2kparams()).unwrap();
    assert_eq!(key, keytab::EncryptionKey { etype: 17, value: expected });
}

#[test]
fn client_derive_password_reply_key_uses_kdc_salt_and_params() {
    // RFC 3962: 128-bit AES key, 1200 iterations.
    let p = Principal::user("IGNORED".to_owned(), "x".to_owned());
    let info = PreauthKeyInfo {
        etype: 17,
        salt: Some("ATHENA.MIT.EDUraeburn".to_owned()),
        s2kparams: Some(vec![0, 0, 0x04, 0xb0]),
    };
    let key = derive_password_reply_key(&p, b"password", &info).unwrap();
    assert_eq!(key.value, hex::decode("4c01cd46d632d01e6dbe230a01ed642a").unwrap());
}

#[test]
fn client_derive_password_reply_key_refuses_unknown_etype() {
    let p = Principal::user("R".to_owned(), "u".to_owned());
    let info = PreauthKeyInfo { etype: 1, salt: None, s2kparams: None };
    assert!(matches!(derive_password_reply_key(&p, b"pw", &info), Err(Error::UnsupportedEtype(1))));
}

#[test]
fn client_select_keytab_reply_key_takes_newest_key_of_the_etype() {
    let mut kt = Keytab::new();
    let kp = keytab::Principal::new("R".to_owned(), 1, vec!["u".to_owned()]);
    kt.add_entry_from_password(kp.clone(), b"old", 10, 1, 18).unwrap();
    kt.add_entry_from_password(kp.clone(), b"new", 20, 2, 18).unwrap();
    kt.add_entry_from_password(kp, b"aes128", 30, 3, 17).unwrap();
    let client = Principal::user("R".to_owned(), "u".to_owned());
    let info = PreauthKeyInfo { etype: 18, salt: None, s2kparams: None };
    let (key, kvno) = select_keytab_reply_key(&kt, &client, &info).unwrap();
    assert_eq!(kvno, 2);
    assert_eq!(key, kt.entries()[1].key);
    let missing = PreauthKeyInfo { etype: 23, salt: None, s2kparams: None };
    assert!(matches!(
        select_keytab_reply_key(&kt, &client, &missing),
        Err(Error::Keytab(keytab::Error::NoMatchingKey { .. }))
    ));
}

#[test]
fn client_s4u_byte_array_layout() {
    let user = Principal::new("EXAMPLE.COM".to_owned(), 10, vec!["al".to_owned(), "ice".to_owned()]);
    let mut expected = vec![10, 0, 0, 0];
    expected.extend_from_slice(b"aliceEXAMPLE.COMKerberos");
    assert_eq!(s4u_byte_array(&user, "Kerberos"), expected);
    let neg = Principal::new(String::new(), -1, Vec::new());
    assert_eq!(s4u_byte_array(&neg, ""), vec![0xff, 0xff, 0xff, 0xff]);
}

#[test]
fn client_session_converts_to_a_ccache_credential() {
    let cred = session().to_ccache_credential().unwrap();
    assert_eq!(cred.client, ccache::Principal::new("EXAMPLE.COM".to_owned(), 1, vec!["alice".to_owned()]));
    assert_eq!(
        cred.server,
        ccache::Principal::new("EXAMPLE.COM".to_owned(), 2, vec!["krbtgt".to_owned(), "EXAMPLE.COM".to_owned()])
    );
    assert_eq!(cred.key, ccache::EncryptionKey { etype: 18, value: vec![1, 2, 3] });
    assert_eq!(
        cred.times,
        ccache::CredentialTimes { auth_time: 100, start_time: 101, end_time: 200, renew_till: 300 }
    );
    assert!(!cred.is_skey);
    assert_eq!(cred.ticket_flags, [0x40, 0xe1, 0, 0]);
    assert!(cred.addresses.is_empty());
    assert!(cred.auth_data.is_empty());
    assert_eq!(cred.ticket, vec![0x61, 0x03, 0x02, 0x01, 0x05]);
    assert!(cred.second_ticket.is_empty());

    let mut no_renew = session();
    no_renew.renew_till = None;
    assert_eq!(no_renew.to_ccache_credential().unwrap().times.renew_till, 0);
}

#[test]
fn client_session_times_must_fit_whole_u32_seconds() {
    let mut s = session();
    s.end_time = UnixTime { seconds: 200, nanos: 1 };
    assert!(matches!(s.to_ccache_credential(), Err(Error::TimeOverflow)));
    let mut s = session();
    s.auth_time = t(-1);
    assert!(matches!(s.to_ccache_credential(), Err(Error::TimeOverflow)));
    let mut s = session();
    s.renew_till = Some(t(1 << 32));
    assert!(matches!(s.to_ccache_credential(), Err(Error::TimeOverflow)));
    let mut s = session();
    s.start_time = t(u32::MAX as i64);
    assert_eq!(s.to_ccache_credential().unwrap().times.start_time, u32::MAX);
}

#[test]
fn client_diagnostics_and_pruned_sessions() {
    let mut d = TokioClientDiagnostics {
        client: "alice".to_owned(),
        realm: "R".to_owned(),
        protocol: "auto".to_owned(),
        credential_source: "password".to_owned(),
        has_tgt: false,
        tgt_session_count: 0,
        service_ticket_cache_count: 0,
        default_tkt_enctypes: vec![18],
        preferred_preauth_types: vec![],
        keytab_enctypes: vec![],
        udp_kdcs: vec![],
        tcp_kdcs: vec![],
        errors: vec![],
    };
    assert!(d.is_ok());
    d.errors.push("no KDC".to_owned());
    assert!(!d.is_ok());
    assert!(PrunedSessions::default().is_empty());
    assert!(!PrunedSessions { primary_tgt: true, tgt_sessions: 0, service_tickets: 0 }.is_empty());
    assert!(!PrunedSessions { primary_tgt: false, tgt_sessions: 0, service_tickets: 2 }.is_empty());
}

#[test]
fn transport_configured_endpoints() {
    let e = KdcEndpoint::configured(KdcProtocol::Udp, "kdc.example.com").unwrap();
    assert_eq!(
        e,
        KdcEndpoint {
            protocol: KdcProtocol::Udp,
            host: "kdc.example.com".to_owned(),
            port: 88,
            source: KdcEndpointSource::Config
        }
    );
    assert_eq!(e.authority(), "kdc.example.com:88");
    let e = KdcEndpoint::configured(KdcProtocol::Tcp, "  kdc.example.com:750 ").unwrap();
    assert_eq!((e.host.as_str(), e.port), ("kdc.example.com", 750));
    let e = KdcEndpoint::configured_with_default_port(KdcProtocol::Auto, "kdc", 464).unwrap();
    assert_eq!(e.port, 464);
}

#[test]
fn transport_ipv6_endpoints() {
    let e = KdcEndpoint::configured(KdcProtocol::Tcp, "[2001:db8::1]:89").unwrap();
    assert_eq!((e.host.as_str(), e.port), ("2001:db8::1", 89));
    assert_eq!(e.authority(), "[2001:db8::1]:89");
    let e = KdcEndpoint::configured(KdcProtocol::Tcp, "[::1]").unwrap();
    assert_eq!((e.host.as_str(), e.port), ("::1", 88));
    let e = KdcEndpoint::configured(KdcProtocol::Tcp, "::1").unwrap();
    assert_eq!((e.host.as_str(), e.port), ("::1", 88));
    assert_eq!(e.authority(), "[::1]:88");
    let e = KdcEndpoint::configured(KdcProtocol::Tcp, "fe80::1:88").unwrap();
    assert_eq!((e.host.as_str(), e.port), ("fe80::1", 88));
}

#[test]
fn transport_invalid_endpoints() {
    let bad = |v: &str| KdcEndpoint::configured(KdcProtocol::Udp, v);
    assert_eq!(bad("   "), Err(TransportError::InvalidKdcEndpoint(String::new())));
    assert_eq!(bad("kdc:abc"), Err(TransportError::InvalidKdcEndpoint("kdc:abc".to_owned())));
    assert_eq!(bad("kdc:99999"), Err(TransportError::InvalidKdcEndpoint("kdc:99999".to_owned())));
    assert_eq!(bad("[::1"), Err(TransportError::InvalidKdcEndpoint("[::1".to_owned())));
    assert_eq!(bad("[]:88"), Err(TransportError::InvalidKdcEndpoint("[]:88".to_owned())));
    assert_eq!(bad("[::1]x"), Err(TransportError::InvalidKdcEndpoint("[::1]x".to_owned())));
    assert_eq!(bad("[::1]:"), Err(TransportError::InvalidKdcEndpoint("[::1]:".to_owned())));
    assert_eq!(bad(":88"), Err(TransportError::InvalidKdcEndpoint(":88".to_owned())));
}

#[test]
fn transport_settings() {
    let t = TokioKdcTransport::new();
    assert_eq!(t.timeout(), std::time::Duration::from_secs(5));
    assert_eq!(t.udp_response_limit(), 65_508);
    assert_eq!(t.tcp_response_limit(), 16 * 1024 * 1024);
    let t = t
        .with_timeout(std::time::Duration::from_millis(250))
        .with_udp_response_limit(1500)
        .with_tcp_response_limit(4096);
    assert_eq!(t.timeout(), std::time::Duration::from_millis(250));
    assert_eq!(t.udp_response_limit(), 1500);
    assert_eq!(t.tcp_response_limit(), 4096);
}
