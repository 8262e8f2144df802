use rskrb5::ccache::{
    same_principal_identity, CCache, CacheName, Credential, CredentialMetadata, CredentialTimes,
    EncryptionKey, Error, Header, HeaderField, HostAddress, AuthorizationDataEntry, Principal,
};

fn principal(realm: &str, comps: &[&str]) -> Principal {
    Principal::new(realm.to_owned(), 1, comps.iter().map(|c| c.to_string()).collect())
}

fn credential(client: Principal, server: Principal, ticket: &[u8]) -> Credential {
    Credential {
        client,
        server,
        key: EncryptionKey { etype: 18, value: vec![7; 32] },
        times: CredentialTimes { auth_time: 1, start_time: 2, end_time: 3, renew_till: 4 },
        is_skey: false,
        ticket_flags: [0x40, 0xe1, 0x00, 0x00],
        addresses: vec![HostAddress { addr_type: 2, address: vec![10, 0, 0, 1] }],
        auth_data: vec![AuthorizationDataEntry { ad_type: 1, data: vec![9, 9] }],
        ticket: ticket.to_vec(),
        second_ticket: Vec::new(),
    }
}

fn minimal_v4() -> Vec<u8> {
    let mut b = vec![0x05, 0x04, 0x00, 0x0c, 0x00, 0x01, 0x00, 0x08];
    b.extend_from_slice(&[0, 0, 0, 0, 0, 0, 0, 5]);
    b.extend_from_slice(&[0, 0, 0, 1, 0, 0, 0, 1]); // name type, one component
    b.extend_from_slice(&[0, 0, 0, 1, b'A']); // realm
    b.extend_from_slice(&[0, 0, 0, 1, b'u']); // component
    b
}

#[test]
fn ccache_parses_a_minimal_version_4_cache() {
    let bytes = minimal_v4();
    let cc = CCache::parse(&bytes).unwrap();
    assert_eq!(cc.version(), 4);
    assert_eq!(
        cc.header(),
        &Header { fields: vec![HeaderField { tag: 1, value: vec![0, 0, 0, 0, 0, 0, 0, 5] }] }
    );
    assert_eq!(cc.default_principal(), &principal("A", &["u"]));
    assert_eq!(cc.client_realm(), "A");
    assert_eq!(cc.client_name(), "u");
    assert!(cc.credentials().is_empty());
    assert_eq!(cc.to_bytes().unwrap(), bytes);
}

#[test]
fn ccache_header_errors() {
    assert_eq!(CCache::parse(&[0x05]), Err(Error::TooShort { actual: 1 }));
    assert_eq!(CCache::parse(&[0x06, 0x04]), Err(Error::InvalidFirstByte(6)));
    assert_eq!(CCache::parse(&[0x05, 0x05]), Err(Error::InvalidVersion(5)));
    let mut bytes = minimal_v4();
    bytes.truncate(bytes.len() - 1);
    assert!(matches!(CCache::parse(&bytes), Err(Error::Truncated { .. })));
}

#[test]
fn ccache_new_round_trips_with_credentials() {
    let me = principal("EXAMPLE.COM", &["alice"]);
    let mut cc = CCache::new(me.clone());
    assert_eq!(cc.version(), 4);
    assert!(cc.header().fields.is_empty());
    cc.upsert_credential(credential(me.clone(), principal("EXAMPLE.COM", &["krbtgt", "EXAMPLE.COM"]), b"tgt"));
    cc.upsert_credential(credential(me.clone(), principal("EXAMPLE.COM", &["HTTP", "web"]), b"svc"));
    let bytes = cc.to_bytes().unwrap();
    let back = CCache::parse(&bytes).unwrap();
    assert_eq!(back, cc);
    assert_eq!(back.credentials().len(), 2);
}

#[test]
fn ccache_upsert_replaces_same_client_and_server() {
    let me = principal("R", &["alice"]);
    let svc = principal("R", &["HTTP", "web"]);
    let mut cc = CCache::new(me.clone());
    assert_eq!(cc.upsert_credential(credential(me.clone(), svc.clone(), b"one")), None);
    let old = cc.upsert_credential(credential(me.clone(), svc.clone(), b"two"));
    assert_eq!(old.unwrap().ticket, b"one".to_vec());
    assert_eq!(cc.credentials().len(), 1);
    assert_eq!(cc.credentials()[0].ticket, b"two".to_vec());
}

#[test]
fn ccache_remove_entries_for_client_keeps_config_entries() {
    let me = principal("R", &["alice"]);
    let bob = principal("R", &["bob"]);
    let mut cc = CCache::new(me.clone());
    cc.credentials_mut().push(credential(me.clone(), principal("R", &["a"]), b"1"));
    cc.credentials_mut().push(credential(me.clone(), principal("X-CACHECONF:", &["krb5_ccache_conf_data", "pa_type"]), b"2"));
    cc.credentials_mut().push(credential(bob.clone(), principal("R", &["b"]), b"3"));
    let mut other_type = me.clone();
    other_type.name_type = 10;
    cc.credentials_mut().push(credential(me.clone(), principal("R", &["c"]), b"4"));
    let removed = cc.remove_entries_for_client(&other_type);
    assert_eq!(removed.iter().map(|c| c.ticket.clone()).collect::<Vec<_>>(), vec![b"1".to_vec(), b"4".to_vec()]);
    assert_eq!(cc.credentials().iter().map(|c| c.ticket.clone()).collect::<Vec<_>>(), vec![b"2".to_vec(), b"3".to_vec()]);
}

#[test]
fn ccache_entries_skip_config_and_lookup_by_components() {
    let me = principal("R", &["alice"]);
    let mut cc = CCache::new(me.clone());
    cc.credentials_mut().push(credential(me.clone(), principal("X-CACHECONF:", &["HTTP", "web"]), b"conf"));
    cc.credentials_mut().push(credential(me.clone(), principal("OTHER", &["HTTP", "web"]), b"svc"));
    let entries = cc.entries();
    assert_eq!(entries.len(), 1);
    assert_eq!(entries[0].ticket, b"svc".to_vec());
    assert_eq!(cc.get_entry(&["HTTP", "web"]).unwrap().ticket, b"conf".to_vec());
    assert!(cc.contains_server(&["HTTP", "web"]));
    assert!(!cc.contains_server(&["HTTP"]));
    assert!(cc.get_entry(&["ldap", "web"]).is_none());
}

#[test]
fn ccache_principal_helpers() {
    let p = principal("R", &["HTTP", "web"]);
    assert_eq!(p.name_string(), "HTTP/web");
    assert_eq!(p.principal_string(), "HTTP/web@R");
    assert!(p.matches_components(&["HTTP", "web"]));
    assert!(!p.matches_components(&["HTTP"]));
    let mut q = principal("R", &["HTTP", "web"]);
    q.name_type = 2;
    assert!(same_principal_identity(&p, &q));
    assert!(!same_principal_identity(&p, &principal("S", &["HTTP", "web"])));
}

#[test]
fn ccache_metadata_is_redacted() {
    let me = principal("R", &["alice"]);
    let mut cc = CCache::new(me.clone());
    cc.credentials_mut().push(credential(me.clone(), principal("X-CACHECONF:", &["k"]), b"abc"));
    let md = cc.credential_metadata();
    assert_eq!(md.len(), 1);
    let expected = CredentialMetadata {
        client: "alice@R".to_owned(),
        server: "k@X-CACHECONF:".to_owned(),
        client_realm: "R".to_owned(),
        server_realm: "X-CACHECONF:".to_owned(),
        client_components: vec!["alice".to_owned()],
        server_components: vec!["k".to_owned()],
        etype: 18,
        key_length: 32,
        times: CredentialTimes { auth_time: 1, start_time: 2, end_time: 3, renew_till: 4 },
        is_skey: false,
        ticket_flags: [0x40, 0xe1, 0x00, 0x00],
        address_count: 1,
        auth_data_count: 1,
        ticket_length: 3,
        second_ticket_length: 0,
        is_config_entry: true,
    };
    assert_eq!(md[0], expected);
}

#[test]
fn ccache_names_resolve_to_file_paths() {
    assert_eq!(CCache::file_path_from_cache_name("/tmp/krb5cc_0").unwrap(), "/tmp/krb5cc_0");
    assert_eq!(CCache::file_path_from_cache_name("FILE:/tmp/x").unwrap(), "/tmp/x");
    assert_eq!(CCache::file_path_from_cache_name("wrfile:/tmp/y").unwrap(), "/tmp/y");
    assert_eq!(CCache::file_path_from_cache_name("C:\\cache").unwrap(), "C:\\cache");
    assert_eq!(CCache::file_path_from_cache_name(""), Err(Error::InvalidCacheName));
    assert_eq!(
        CCache::file_path_from_cache_name("KCM:1000"),
        Err(Error::UnsupportedCacheType { cache_type: "KCM".to_owned() })
    );
    let name = CacheName::parse("FILE:/tmp/z").unwrap();
    assert_eq!(name.file_path(), "/tmp/z");
    assert_eq!(name.into_file_path(), "/tmp/z".to_owned());
    assert_eq!(CacheName::parse("DIR:/tmp"), Err(Error::UnsupportedCacheType { cache_type: "DIR".to_owned() }));
}

#[test]
fn ccache_kdc_offset_field_must_hold_eight_bytes() {
    // header length 10: tag 1 with a six-byte value
    let mut b = vec![0x05, 0x04, 0x00, 0x0a, 0x00, 0x01, 0x00, 0x06];
    b.extend_from_slice(&[0, 0, 0, 0, 0, 5]);
    b.extend_from_slice(&[0, 0, 0, 1, 0, 0, 0, 1]);
    b.extend_from_slice(&[0, 0, 0, 1, b'A']);
    b.extend_from_slice(&[0, 0, 0, 1, b'u']);
    assert_eq!(CCache::parse(&b), Err(Error::InvalidHeaderField { tag: 1, length: 6 }));
    // another tag may hold any length
    b[5] = 2;
    let cc = CCache::parse(&b).unwrap();
    assert_eq!(cc.header().fields, vec![HeaderField { tag: 2, value: vec![0, 0, 0, 0, 0, 5] }]);
}
