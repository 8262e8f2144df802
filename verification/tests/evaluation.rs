use rskrb5::evaluation::Candidate;

#[test]
fn candidate_names_and_licenses() {
    assert_eq!(Candidate::RasnKerberos.name(), "rasn-kerberos");
    assert_eq!(Candidate::KerbeirosFamily.name(), "kerbeiros/kerberos_*");
    assert_eq!(Candidate::SystemGssapiWrappers.name(), "cross-krb5/libgssapi");
    assert_eq!(Candidate::Krb5Rs.license(), "Apache-2.0");
    assert_eq!(Candidate::KerbeirosFamily.license(), "AGPL-3.0");
    assert_eq!(Candidate::HttpNegotiateLayers.license(), "MIT / LGPL-3.0-or-later by crate");
}
