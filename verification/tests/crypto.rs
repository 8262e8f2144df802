use rskrb5::crypto::{
    iterations_to_s2kparams, kerb_checksum_hmac_md5, nfold, s2kparams_to_iterations,
    AesSha1Etype, AesSha2Etype, Des3CbcSha1KdEtype, Error, KerberosEtype, Rc4HmacEtype,
};

fn h(s: &str) -> Vec<u8> {
    hex::decode(s).unwrap()
}

#[test]
fn nfold_rfc3961_vectors() {
    assert_eq!(nfold(b"012345", 64).unwrap(), h("be072631276b1955"));
    assert_eq!(nfold(b"password", 56).unwrap(), h("78a07b6caf85fa"));
    assert_eq!(nfold(b"Rough Consensus, and Running Code", 64).unwrap(), h("bb6ed30870b7f0e0"));
    assert_eq!(nfold(b"password", 168).unwrap(), h("59e4a8ca7c0385c3c37b3f6d2000247cb6e6bd5b3e"));
    assert_eq!(
        nfold(b"MASSACHVSETTS INSTITVTE OF TECHNOLOGY", 192).unwrap(),
        h("db3b0d8f0b061e603282b308a50841229ad798fab9540c1b")
    );
    assert_eq!(nfold(b"Q", 168).unwrap(), h("518a54a215a8452a518a54a215a8452a518a54a215"));
    assert_eq!(nfold(b"ba", 168).unwrap(), h("fb25d531ae8974499f52fd92ea9857c4ba24cf297e"));
    assert_eq!(nfold(b"kerberos", 64).unwrap(), h("6b65726265726f73"));
    assert_eq!(
        nfold(b"kerberos", 128).unwrap(),
        h("6b65726265726f737b9b5b2b93132b93")
    );
    assert_eq!(
        nfold(b"kerberos", 168).unwrap(),
        h("8372c236344e5f1550cd0747e15d62ca7a5a3bcea4")
    );
    assert_eq!(
        nfold(b"kerberos", 256).unwrap(),
        h("6b65726265726f737b9b5b2b93132b935c9bdcdad95c9899c4cae4dee6d6cae4")
    );
}

#[test]
fn nfold_rejects_bad_input() {
    assert_eq!(nfold(b"", 64), Err(Error::EmptyNfoldInput));
    assert_eq!(nfold(b"a", 0), Err(Error::InvalidNfoldOutputBits(0)));
    assert_eq!(nfold(b"a", 12), Err(Error::InvalidNfoldOutputBits(12)));
}

#[test]
fn s2kparams_round_trip_and_errors() {
    assert_eq!(iterations_to_s2kparams(4096), "00001000");
    assert_eq!(iterations_to_s2kparams(0xdeadbeef), "deadbeef");
    assert_eq!(s2kparams_to_iterations("00001000"), Ok(4096));
    assert_eq!(s2kparams_to_iterations("DEADBEEF"), Ok(0xdeadbeef));
    assert_eq!(s2kparams_to_iterations("0001000"), Err(Error::InvalidS2kParamsLength(7)));
    assert_eq!(s2kparams_to_iterations("0000100g"), Err(Error::InvalidS2kParamsHex('g')));
    assert_eq!(s2kparams_to_iterations("00000000"), Err(Error::UnsupportedIterationCountZero));
}

#[test]
fn aes128_sha1_string_to_key_rfc3962() {
    let e = AesSha1Etype::Aes128;
    let tkey = e.string_to_pbkdf2(b"password", b"ATHENA.MIT.EDUraeburn", 1);
    assert_eq!(tkey, h("cdedb5281bb2f801565a1122b2563515"));
    let key = e
        .string_to_key(b"password", b"ATHENA.MIT.EDUraeburn", "00000001")
        .unwrap();
    assert_eq!(key, h("42263c6e89f4fc28b8df68ee09799f15"));
}

#[test]
fn aes256_sha1_string_to_key_rfc3962() {
    let e = AesSha1Etype::Aes256;
    let key = e
        .string_to_key(b"password", b"ATHENA.MIT.EDUraeburn", "00000001")
        .unwrap();
    assert_eq!(
        key,
        h("fe697b52bc0d3ce14432ba036a92e65bbb52280990a2fa27883998d72af30161")
    );
    let key2 = e
        .string_to_key(b"password", b"ATHENA.MIT.EDUraeburn", "00000002")
        .unwrap();
    assert_eq!(
        key2,
        h("a2e16d16b36069c135d5e9d2e25f896102685618b95914b467c67622225824ff")
    );
}

#[test]
fn aes_sha2_rfc8009_vectors() {
    let e = AesSha2Etype::Aes128;
    let mut salt = h("10df9dd783e5bc8acea1730e74355f61");
    salt.extend_from_slice(b"ATHENA.MIT.EDUraeburn");
    let key = e.string_to_key(b"password", &salt, "00008000").unwrap();
    assert_eq!(key, h("089bca48b105ea6ea77ca5d2f39dc5e7"));
    let base = h("3705d96080c17728a0e800eab6e0d23c");
    assert_eq!(
        e.derive_key(&base, &h("0000000299")).unwrap(),
        h("b31a018a48f54776f403e9a396325dc3")
    );
    assert_eq!(
        e.derive_key(&base, &h("00000002aa")).unwrap(),
        h("9b197dd1e8c5609d6e67c3e37c62c72e")
    );
    assert_eq!(
        e.derive_key(&base, &h("0000000255")).unwrap(),
        h("9fda0e56ab2d85e1569a688696c26a6c")
    );
    let e256 = AesSha2Etype::Aes256;
    let key256 = e256.string_to_key(b"password", &salt, "00008000").unwrap();
    assert_eq!(
        key256,
        h("45bd806dbf6a833a9cffc1c94589a222367a79bc21c413718906e9f578a78467")
    );
    assert_eq!(e.ename(), "aes128-cts-hmac-sha256-128");
    assert_eq!(e.saltp(b"s"), b"aes128-cts-hmac-sha256-128\0s".to_vec());
}

#[test]
fn aes_sha2_checksum_rfc8009() {
    let e = AesSha2Etype::Aes128;
    let base = h("3705d96080c17728a0e800eab6e0d23c");
    let data = h("000102030405060708090a0b0c0d0e0f1011121314");
    assert_eq!(
        e.checksum(&base, &data, 2).unwrap(),
        h("d78367186643d67b411cba9139fc1dee")
    );
    assert!(e.verify_checksum(&base, &data, &h("d78367186643d67b411cba9139fc1dee"), 2));
    assert!(!e.verify_checksum(&base, &data, &h("d78367186643d67b411cba9139fc1def"), 2));
}

#[test]
fn aes_sha2_encrypt_rfc8009_vector() {
    let e = AesSha2Etype::Aes128;
    let base = h("3705d96080c17728a0e800eab6e0d23c");
    let confounder = h("7e5895eaf2672435bad817f545a37148");
    let out = e
        .encrypt_message_with_confounder(&base, b"", 2, &confounder)
        .unwrap();
    assert_eq!(
        out,
        h("ef85fb890bb8472f4dab20394dca781dad877eda39d50c870c0d5a0a8e48c718")
    );
    assert_eq!(e.decrypt_message(&base, &out, 2).unwrap(), Vec::<u8>::new());
}

#[test]
fn aes_sha1_message_round_trip_all_lengths() {
    for e in [AesSha1Etype::Aes128, AesSha1Etype::Aes256] {
        let key: Vec<u8> = (0..e.key_len() as u8).collect();
        let confounder = [9u8; 16];
        for len in [0usize, 1, 15, 16, 17, 31, 32, 33, 64, 100] {
            let msg: Vec<u8> = (0..len).map(|i| i as u8).collect();
            let ct = e.encrypt_message_with_confounder(&key, &msg, 7, &confounder).unwrap();
            assert_eq!(ct.len(), 16 + len + 12);
            assert_eq!(e.decrypt_message(&key, &ct, 7).unwrap(), msg);
            let mut bad = ct.clone();
            let last = bad.len() - 1;
            bad[last] ^= 1;
            assert_eq!(e.decrypt_message(&key, &bad, 7), Err(Error::IntegrityCheckFailed));
        }
    }
}

#[test]
fn aes_sha1_error_cases() {
    let e = AesSha1Etype::Aes128;
    let key = [0u8; 16];
    assert_eq!(
        e.derive_key(&[0u8; 3], b"x"),
        Err(Error::InvalidKeyLength { expected: 16, actual: 3 })
    );
    assert_eq!(e.derive_random(&key, b""), Err(Error::EmptyUsage));
    assert_eq!(
        e.encrypt_message_with_confounder(&key, b"m", 1, &[0u8; 3]),
        Err(Error::InvalidConfounderLength { expected: 16, actual: 3 })
    );
    assert_eq!(
        e.decrypt_message(&key, &[0u8; 27], 1),
        Err(Error::CiphertextTooShort { minimum: 28, actual: 27 })
    );
    assert_eq!(e.encrypt_data(&key, b""), Err(Error::EmptyPlaintext));
    assert_eq!(
        e.decrypt_data(&key, &[0u8; 15]),
        Err(Error::CiphertextTooShort { minimum: 16, actual: 15 })
    );
}

#[test]
fn aes_cts_rfc3962_vectors() {
    let e = AesSha1Etype::Aes128;
    let key = h("636869636b656e207465726979616b69");
    let plain = h("4920776f756c64206c696b652074686520");
    let (_, ct) = e.encrypt_data(&key, &plain).unwrap();
    assert_eq!(ct, h("c6353568f2bf8cb4d8a580362da7ff7f97"));
    assert_eq!(e.decrypt_data(&key, &ct).unwrap(), plain);
    let plain2 = h("4920776f756c64206c696b65207468652047656e6572616c20476175277320");
    let (_, ct2) = e.encrypt_data(&key, &plain2).unwrap();
    assert_eq!(ct2, h("fc00783e0efdb2c1d445d4c8eff7ed2297687268d6ecccc0c07b25e25ecfe5"));
    assert_eq!(e.decrypt_data(&key, &ct2).unwrap(), plain2);
    let plain3 = h("4920776f756c64206c696b65207468652047656e6572616c2047617527732043");
    let (_, ct3) = e.encrypt_data(&key, &plain3).unwrap();
    assert_eq!(ct3, h("39312523a78662d5be7fcbcc98ebf5a897687268d6ecccc0c07b25e25ecfe584"));
    assert_eq!(e.decrypt_data(&key, &ct3).unwrap(), plain3);
}

#[test]
fn des3_vectors_and_round_trip() {
    let e = Des3CbcSha1KdEtype;
    let key = e.string_to_key(b"password", b"ATHENA.MIT.EDUraeburn", "").unwrap();
    assert_eq!(key, h("850bb51358548cd05e86768c313e3bfef7511937dcf72c3e"));
    assert_eq!(
        e.string_to_key(b"password", b"x", "00001000"),
        Err(Error::NonEmptyDes3S2kParams)
    );
    assert_eq!(
        e.random_to_key(&[0u8; 20]),
        Err(Error::InvalidSeedLength { expected: 21, actual: 20 })
    );
    let confounder = [3u8; 8];
    let msg = b"hello des3 world";
    let ct = e.encrypt_message_with_confounder(&key, msg, 3, &confounder).unwrap();
    assert_eq!(ct.len(), 24 + 20);
    assert_eq!(e.decrypt_message(&key, &ct, 3).unwrap(), msg.to_vec());
    let ct2 = e.encrypt_message_with_confounder(&key, b"abc", 3, &confounder).unwrap();
    assert_eq!(e.decrypt_message(&key, &ct2, 3).unwrap(), b"abc\0\0\0\0\0".to_vec());
    assert_eq!(
        e.decrypt_data(&key, &[0u8; 9]),
        Err(Error::InvalidCiphertextBlockSize { block_size: 8, actual: 9 })
    );
}

#[test]
fn des3_random_to_key_fixes_weak_keys() {
    let e = Des3CbcSha1KdEtype;
    let key = e.random_to_key(&[0u8; 21]).unwrap();
    assert_eq!(&key[..8], &[0x01, 0x01, 0x01, 0x01, 0x01, 0x01, 0x01, 0xf1]);
}

#[test]
fn rc4_vectors_and_round_trip() {
    let e = Rc4HmacEtype;
    let key = e.string_to_key(b"foo", b"ignored", "").unwrap();
    assert_eq!(key, h("ac8e657f83df82beea5d43bdaf7800cc"));
    assert_eq!(
        e.string_to_key(&[0xff, 0xfe], b"", ""),
        Err(Error::InvalidStringToKeySecret)
    );
    let confounder = [5u8; 8];
    let ct = e.encrypt_message_with_confounder(&key, b"secret", 9, &confounder).unwrap();
    assert_eq!(ct.len(), 16 + 8 + 6);
    assert_eq!(e.decrypt_message(&key, &ct, 9).unwrap(), b"secret".to_vec());
    let mut bad = ct.clone();
    bad[20] ^= 0x80;
    assert_eq!(e.decrypt_message(&key, &bad, 9), Err(Error::IntegrityCheckFailed));
    let sum = e.checksum(&key, b"data", 17).unwrap();
    assert_eq!(sum, kerb_checksum_hmac_md5(&key, b"data", 17));
    assert!(e.verify_checksum(&key, b"data", &sum, 17));
}

#[test]
fn kerberos_etype_dispatch() {
    for id in [16, 17, 18, 19, 20, 23] {
        let e = KerberosEtype::from_etype_id(id).unwrap();
        assert_eq!(e.etype_id(), id);
    }
    assert_eq!(KerberosEtype::from_etype_id(1), None);
    assert_eq!(
        KerberosEtype::from_checksum_type_id(-138),
        Some(KerberosEtype::Rc4Hmac(Rc4HmacEtype))
    );
    assert_eq!(
        KerberosEtype::from_checksum_type_id(16),
        Some(KerberosEtype::Sha1(AesSha1Etype::Aes256))
    );
    assert_eq!(KerberosEtype::from_checksum_type_id(99), None);
    let e = KerberosEtype::Sha2(AesSha2Etype::Aes256);
    assert_eq!(e.key_len(), 32);
    assert_eq!(e.hmac_len(), 24);
    assert_eq!(e.confounder_len(), 16);
    assert_eq!(e.default_s2kparams(), "00008000");
    let key = vec![1u8; 32];
    let ct = e.encrypt_message_with_confounder(&key, b"xyz", 4, &[2u8; 16]).unwrap();
    assert_eq!(e.decrypt_message(&key, &ct, 4).unwrap(), b"xyz".to_vec());
}
