use rskrb5::crypto::KerberosEtype;
use rskrb5::keytab::{EncryptionKey, Entry, Error, Keytab, KeytabEntryMetadata, Principal};

fn one_entry_v2() -> Vec<u8> {
    let mut b = vec![0x05, 0x02, 0x00, 0x00, 0x00, 0x1b];
    b.extend_from_slice(&[0x00, 0x01]); // one component
    b.extend_from_slice(&[0x00, 0x01, b'A']); // realm
    b.extend_from_slice(&[0x00, 0x01, b'b']); // component
    b.extend_from_slice(&[0x00, 0x00, 0x00, 0x01]); // name type
    b.extend_from_slice(&[0x00, 0x00, 0x00, 0x0a]); // timestamp
    b.push(0x03); // kvno8
    b.extend_from_slice(&[0x00, 0x12]); // etype
    b.extend_from_slice(&[0x00, 0x02, 0xaa, 0xbb]); // key
    b.extend_from_slice(&[0x00, 0x00, 0x00, 0x07]); // kvno32
    b
}

fn principal(realm: &str, comps: &[&str]) -> Principal {
    Principal::new(realm.to_owned(), 1, comps.iter().map(|c| c.to_string()).collect())
}

#[test]
fn keytab_parses_one_entry_and_writes_it_back() {
    let bytes = one_entry_v2();
    let kt = Keytab::parse(&bytes).unwrap();
    assert_eq!(kt.version(), 2);
    assert_eq!(kt.entries().len(), 1);
    let e = &kt.entries()[0];
    assert_eq!(e.principal.realm, "A");
    assert_eq!(e.principal.components, vec!["b".to_owned()]);
    assert_eq!(e.principal.name_type, 1);
    assert_eq!(e.timestamp, 10);
    assert_eq!(e.kvno8, 3);
    assert_eq!(e.kvno, 7);
    assert_eq!(e.key.etype, 18);
    assert_eq!(e.key.value, vec![0xaa, 0xbb]);
    assert_eq!(kt.to_bytes().unwrap(), bytes);
}

#[test]
fn keytab_zero_kvno32_falls_back_to_kvno8() {
    let mut bytes = one_entry_v2();
    let n = bytes.len();
    bytes[n - 1] = 0;
    let kt = Keytab::parse(&bytes).unwrap();
    assert_eq!(kt.entries()[0].kvno, 3);
}

#[test]
fn keytab_missing_kvno32_falls_back_to_kvno8() {
    let mut bytes = one_entry_v2();
    bytes.truncate(bytes.len() - 4);
    bytes[5] = 0x17;
    let kt = Keytab::parse(&bytes).unwrap();
    assert_eq!(kt.entries()[0].kvno, 3);
    assert_eq!(kt.entries()[0].kvno8, 3);
}

#[test]
fn keytab_header_errors() {
    assert_eq!(Keytab::parse(&[0x05]), Err(Error::TooShort { actual: 1 }));
    assert_eq!(Keytab::parse(&[0x04, 0x02]), Err(Error::InvalidFirstByte(4)));
    assert_eq!(Keytab::parse(&[0x05, 0x03]), Err(Error::InvalidVersion(3)));
    let empty = Keytab::parse(&[0x05, 0x02]).unwrap();
    assert_eq!(empty.version(), 2);
    assert!(empty.entries().is_empty());
}

#[test]
fn keytab_truncated_entry_is_refused() {
    let mut bytes = one_entry_v2();
    bytes.truncate(20);
    assert!(matches!(Keytab::parse(&bytes), Err(Error::Truncated { .. })));
}

#[test]
fn keytab_negative_entry_length_skips_a_hole() {
    let mut bytes = vec![0x05, 0x02, 0xff, 0xff, 0xff, 0xfe, 0x00, 0x00];
    bytes.extend_from_slice(&one_entry_v2()[2..]);
    let kt = Keytab::parse(&bytes).unwrap();
    assert_eq!(kt.entries().len(), 1);
    assert_eq!(kt.entries()[0].kvno, 7);
}

#[test]
fn keytab_zero_entry_length_ends_the_entries() {
    let mut bytes = vec![0x05, 0x02, 0x00, 0x00, 0x00, 0x00];
    bytes.extend_from_slice(&one_entry_v2()[2..]);
    let kt = Keytab::parse(&bytes).unwrap();
    assert!(kt.entries().is_empty());
}

#[test]
fn keytab_new_round_trips() {
    let mut kt = Keytab::new();
    assert_eq!(kt.version(), 2);
    kt.add_entry_from_password(principal("EXAMPLE.COM", &["HTTP", "host.example.com"]), b"secret", 1_700_000_000, 4, 17)
        .unwrap();
    let bytes = kt.to_bytes().unwrap();
    let back = Keytab::parse(&bytes).unwrap();
    assert_eq!(back, kt);
}

#[test]
fn keytab_add_entry_derives_the_default_salt_key() {
    let mut kt = Keytab::new();
    let p = principal("ATHENA.MIT.EDU", &["raeburn"]);
    kt.add_entry_from_password(p.clone(), b"password", 42, 2, 18).unwrap();
    let e = &kt.entries()[0];
    let etype = KerberosEtype::from_etype_id(18).unwrap();
    let expected = etype
        .string_to_key(b"password", b"ATHENA.MIT.EDUraeburn", etype.default_s2kparams())
        .unwrap();
    assert_eq!(e.key.value, expected);
    assert_eq!(e.key.value.len(), 32);
    assert_eq!(e.principal, p);
    assert_eq!(e.timestamp, 42);
    assert_eq!(e.kvno8, 2);
    assert_eq!(e.kvno, 2);
}

#[test]
fn keytab_add_entry_refuses_unknown_etype() {
    let mut kt = Keytab::new();
    assert_eq!(
        kt.add_entry_from_password(principal("R", &["u"]), b"pw", 0, 1, 99),
        Err(Error::UnsupportedEtype(99))
    );
    assert!(kt.entries().is_empty());
}

#[test]
fn keytab_find_key_takes_the_newest_match() {
    let mut kt = Keytab::new();
    let p = principal("R", &["svc", "host"]);
    let push = |kt: &mut Keytab, ts: u32, kvno: u32, etype: i32, byte: u8| {
        kt.entries_mut().push(Entry {
            principal: p.clone(),
            timestamp: ts,
            kvno8: kvno as u8,
            key: EncryptionKey { etype, value: vec![byte] },
            kvno,
        });
    };
    push(&mut kt, 10, 1, 18, 1);
    push(&mut kt, 30, 2, 18, 2);
    push(&mut kt, 20, 3, 18, 3);
    push(&mut kt, 40, 4, 17, 4);
    let (key, kvno) = kt.find_key(&["svc", "host"], "R", 0, 18).unwrap();
    assert_eq!(key.value, vec![2]);
    assert_eq!(kvno, 2);
    let (key, kvno) = kt.find_key(&["svc", "host"], "R", 3, 18).unwrap();
    assert_eq!(key.value, vec![3]);
    assert_eq!(kvno, 3);
    assert_eq!(
        kt.find_key(&["svc", "other"], "R", 0, 18),
        Err(Error::NoMatchingKey {
            principal: "svc/other".to_owned(),
            realm: "R".to_owned(),
            kvno: 0,
            etype: 18
        })
    );
}

#[test]
fn keytab_find_key_keeps_the_first_of_equal_timestamps() {
    let mut kt = Keytab::new();
    for byte in [5u8, 6u8] {
        kt.entries_mut().push(Entry {
            principal: principal("R", &["u"]),
            timestamp: 9,
            kvno8: 1,
            key: EncryptionKey { etype: 23, value: vec![byte] },
            kvno: 1,
        });
    }
    let (key, _) = kt.find_key(&["u"], "R", 0, 23).unwrap();
    assert_eq!(key.value, vec![5]);
}

#[test]
fn keytab_principal_strings() {
    let p = principal("EXAMPLE.COM", &["HTTP", "web.example.com"]);
    assert_eq!(p.name_string(), "HTTP/web.example.com");
    assert_eq!(p.principal_string(), "HTTP/web.example.com@EXAMPLE.COM");
    assert_eq!(p.default_password_salt(), "EXAMPLE.COMHTTPweb.example.com");
}

#[test]
fn keytab_entry_metadata_omits_key_bytes() {
    let kt = Keytab::parse(&one_entry_v2()).unwrap();
    let md = kt.entry_metadata();
    assert_eq!(
        md,
        vec![KeytabEntryMetadata {
            principal: "b@A".to_owned(),
            realm: "A".to_owned(),
            components: vec!["b".to_owned()],
            name_type: 1,
            timestamp: 10,
            kvno8: 3,
            kvno: 7,
            etype: 18,
            key_length: 2,
        }]
    );
}

#[test]
fn keytab_names_resolve_to_file_paths() {
    assert_eq!(Keytab::file_path_from_keytab_name("/etc/krb5.keytab").unwrap(), "/etc/krb5.keytab");
    assert_eq!(Keytab::file_path_from_keytab_name("FILE:/tmp/a.keytab").unwrap(), "/tmp/a.keytab");
    assert_eq!(Keytab::file_path_from_keytab_name("WRFILE:/tmp/b.keytab").unwrap(), "/tmp/b.keytab");
    assert_eq!(Keytab::file_path_from_keytab_name(""), Err(Error::InvalidKeytabName));
    assert_eq!(Keytab::file_path_from_keytab_name("FILE:"), Err(Error::InvalidKeytabName));
    assert_eq!(
        Keytab::file_path_from_keytab_name("MEMORY:x"),
        Err(Error::UnsupportedKeytabType { keytab_type: "MEMORY".to_owned() })
    );
}

#[test]
fn keytab_entry_time_is_whole_seconds() {
    let kt = Keytab::parse(&one_entry_v2()).unwrap();
    assert_eq!(kt.entries()[0].system_time(), rskrb5::client::UnixTime { seconds: 10, nanos: 0 });
}

#[test]
fn keytab_version_1_uses_host_byte_order_and_counts_the_realm() {
    let le = u16::from_ne_bytes([1, 0]) == 1;
    let u16b = |v: u16| if le { v.to_le_bytes() } else { v.to_be_bytes() };
    let u32b = |v: u32| if le { v.to_le_bytes() } else { v.to_be_bytes() };
    let mut body = Vec::new();
    body.extend_from_slice(&u16b(2)); // realm + one component
    body.extend_from_slice(&u16b(1));
    body.push(b'A');
    body.extend_from_slice(&u16b(1));
    body.push(b'b');
    body.extend_from_slice(&u32b(10));
    body.push(3);
    body.extend_from_slice(&u16b(18));
    body.extend_from_slice(&u16b(2));
    body.extend_from_slice(&[0xaa, 0xbb]);
    body.extend_from_slice(&u32b(7));
    let mut bytes = vec![0x05, 0x01];
    bytes.extend_from_slice(&u32b(body.len() as u32));
    bytes.extend_from_slice(&body);
    let kt = Keytab::parse(&bytes).unwrap();
    assert_eq!(kt.version(), 1);
    let e = &kt.entries()[0];
    assert_eq!(e.principal.components, vec!["b".to_owned()]);
    assert_eq!(e.principal.name_type, 0);
    assert_eq!((e.timestamp, e.kvno8, e.kvno, e.key.etype), (10, 3, 7, 18));
    assert_eq!(kt.to_bytes().unwrap(), bytes);
}

#[test]
fn keytab_host_order_round_trip() {
    for little in [false, true] {
        let kt = Keytab::parse_with_host_order(&[5, 1], little).unwrap();
        assert_eq!(kt.version(), 1);
        assert_eq!(kt.to_bytes_with_host_order(little).unwrap(), vec![5, 1]);
        assert_eq!(Keytab::parse_with_host_order(&kt.to_bytes_with_host_order(little).unwrap(), little).unwrap(), kt);
    }
    let v2 = Keytab::new();
    assert_eq!(v2.to_bytes_with_host_order(true).unwrap(), v2.to_bytes_with_host_order(false).unwrap());
}
