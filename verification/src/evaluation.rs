//! Related Kerberos crates, with the names and SPDX license expressions
//! under which they are listed.

use vstd::prelude::*;

verus! {

/// A related Kerberos crate or family of crates.
#[derive(Clone, Copy, Debug, Eq, PartialEq)]
pub enum Candidate {
    /// `rasn-kerberos`, the `rasn` Kerberos ASN.1 type crate.
    RasnKerberos,
    /// `picky-krb`, Devolutions' Kerberos DER data crate.
    PickyKrb,
    /// `sspi`, Devolutions' SSPI implementation with Kerberos/Negotiate.
    SspiRs,
    /// `kerberos-parser`, Rusticata's parser crate.
    KerberosParser,
    /// The published `krb5-rs` crate.
    Krb5Rs,
    /// Kerbeiros-family crates and forks.
    KerbeirosFamily,
    /// `kenobi`, a cross-platform Negotiate client.
    Kenobi,
    /// HTTP Negotiate middleware crates.
    HttpNegotiateLayers,
    /// GSSAPI/SSPI wrapper crates such as `cross-krb5` and `libgssapi`.
    SystemGssapiWrappers,
}

/// The display name of a candidate.
pub open spec fn spec_candidate_name(c: Candidate) -> Seq<char> {
    match c {
        Candidate::RasnKerberos => "rasn-kerberos"@,
        Candidate::PickyKrb => "picky-krb"@,
        Candidate::SspiRs => "sspi-rs"@,
        Candidate::KerberosParser => "kerberos-parser"@,
        Candidate::Krb5Rs => "krb5-rs"@,
        Candidate::KerbeirosFamily => "kerbeiros/kerberos_*"@,
        Candidate::Kenobi => "kenobi"@,
        Candidate::HttpNegotiateLayers => "axum-negotiate-layer/axum-negotiate"@,
        Candidate::SystemGssapiWrappers => "cross-krb5/libgssapi"@,
    }
}

/// The SPDX license expression listed for a candidate.
pub open spec fn spec_candidate_license(c: Candidate) -> Seq<char> {
    match c {
        Candidate::RasnKerberos => "MIT OR Apache-2.0"@,
        Candidate::PickyKrb => "MIT OR Apache-2.0"@,
        Candidate::SspiRs => "MIT OR Apache-2.0"@,
        Candidate::KerberosParser => "MIT OR Apache-2.0"@,
        Candidate::Krb5Rs => "Apache-2.0"@,
        Candidate::KerbeirosFamily => "AGPL-3.0"@,
        Candidate::Kenobi => "MIT"@,
        Candidate::HttpNegotiateLayers => "MIT / LGPL-3.0-or-later by crate"@,
        Candidate::SystemGssapiWrappers => "MIT"@,
    }
}

impl Candidate {
    /// Display name used in reports.
    pub fn name(self) -> (r: &'static str)
        ensures
            r@ == spec_candidate_name(self),
    {
        match self {
            Candidate::RasnKerberos => "rasn-kerberos",
            Candidate::PickyKrb => "picky-krb",
            Candidate::SspiRs => "sspi-rs",
            Candidate::KerberosParser => "kerberos-parser",
            Candidate::Krb5Rs => "krb5-rs",
            Candidate::KerbeirosFamily => "kerbeiros/kerberos_*",
            Candidate::Kenobi => "kenobi",
            Candidate::HttpNegotiateLayers => "axum-negotiate-layer/axum-negotiate",
            Candidate::SystemGssapiWrappers => "cross-krb5/libgssapi",
        }
    }

    /// SPDX license expression observed for the candidate's crate.
    pub fn license(self) -> (r: &'static str)
        ensures
            r@ == spec_candidate_license(self),
    {
        match self {
            Candidate::RasnKerberos => "MIT OR Apache-2.0",
            Candidate::PickyKrb => "MIT OR Apache-2.0",
            Candidate::SspiRs => "MIT OR Apache-2.0",
            Candidate::KerberosParser => "MIT OR Apache-2.0",
            Candidate::Krb5Rs => "Apache-2.0",
            Candidate::KerbeirosFamily => "AGPL-3.0",
            Candidate::Kenobi => "MIT",
            Candidate::HttpNegotiateLayers => "MIT / LGPL-3.0-or-later by crate",
            Candidate::SystemGssapiWrappers => "MIT",
        }
    }
}

} // verus!
