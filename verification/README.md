# rskrb5

A Kerberos 5 library whose core is verified with Verus.

- `src/` — the verified library: the RFC 3961/3962/8009/4757 encryption
  types (n-fold, key derivation, CBC and CTS modes, message encryption and
  checksums), the MIT keytab and credential-cache file formats, `krb5.conf`
  parsing, principal names, KDC endpoint discovery decisions, AS/TGS
  request options, the DER encoding of AS-REQ, TGS-REQ and AP-REQ
  messages, the decoding and checking of AS-REP, TGS-REP and KRB-ERROR
  replies (with the ETYPE-INFO2 / ETYPE-INFO key hints of METHOD-DATA),
  the login, referral-following, service-ticket cache and password-change
  decisions, password-change (kpasswd) frames, and session timing. Block ciphers, hashes, HMAC,
  PBKDF2 and RC4 come from the RustCrypto crates behind small trusted
  wrappers in `src/primitives.rs`; calendar conversion of Kerberos times
  comes from chrono behind two wrappers in `src/asn1.rs`.
- `tests/` — executable tests, including published test vectors.
- `app/` — file, environment, clock and JSON access around the library.
