//! Options for building AS-REQ and TGS-REQ messages: lifetimes, nonce,
//! encryption types, KDC options and extra preauthentication data, with
//! their defaults and their values from `[libdefaults]`.

use vstd::prelude::*;

use super::{renewal_kdc_option_bits, UnixTime, KDC_OPTION_CANONICALIZE, KDC_OPTION_RENEW, KDC_OPTION_RENEWABLE};
use crate::ccache::HostAddress;
use crate::config::LibDefaults;
use crate::keytab::EncryptionKey;

verus! {

/// Default requested ticket lifetime: one day, in seconds.
pub const DEFAULT_TICKET_LIFETIME: u64 = 86400;

/// Default requested encryption types, most preferred first: the AES
/// types of RFC 8009, then those of RFC 3962.
pub open spec fn spec_default_enctypes() -> Seq<i32> {
    seq![20i32, 19i32, 18i32, 17i32]
}

fn default_enctypes() -> (r: Vec<i32>)
    ensures
        r@ == spec_default_enctypes(),
{
    let r: Vec<i32> = vec![20, 19, 18, 17];
    assert(r@ =~= spec_default_enctypes());
    r
}

/// Preauthentication data: a type and its opaque value.
#[derive(Clone, Debug, Eq, PartialEq)]
pub struct PaData {
    /// Preauthentication data type.
    pub padata_type: i32,
    /// DER-encoded value.
    pub padata_value: Vec<u8>,
}

/// The renewable lifetime asked for: none when `[libdefaults]` gives zero.
pub open spec fn spec_renew_lifetime(seconds: u64) -> Option<u64> {
    if seconds != 0 {
        Some(seconds)
    } else {
        None
    }
}

/// The encryption types asked for: the configured ones, or the defaults
/// when none are configured.
pub open spec fn spec_configured_enctypes(ids: Seq<i32>) -> Seq<i32> {
    if ids.len() == 0 {
        spec_default_enctypes()
    } else {
        ids
    }
}

/// The KDC options asked for: the configured ones, with `canonicalize`
/// added when `[libdefaults]` asks for it.
pub open spec fn spec_configured_kdc_options(bits: u32, canonicalize: bool) -> u32 {
    if canonicalize {
        bits | KDC_OPTION_CANONICALIZE
    } else {
        bits
    }
}

fn configured_enctypes(ids: &Vec<i32>) -> (r: Vec<i32>)
    ensures
        r@ == spec_configured_enctypes(ids@),
{
    if ids.len() == 0 {
        default_enctypes()
    } else {
        ids.clone()
    }
}

fn configured_kdc_options(bits: u32, canonicalize: bool) -> (r: u32)
    ensures
        r == spec_configured_kdc_options(bits, canonicalize),
{
    if canonicalize {
        bits | KDC_OPTION_CANONICALIZE
    } else {
        bits
    }
}

/// Options for constructing an AS-REQ.
#[derive(Clone, Debug, Eq, PartialEq)]
pub struct AsReqOptions {
    /// Client clock used for request time fields.
    pub now: UnixTime,
    /// Requested ticket lifetime in seconds.
    pub ticket_lifetime: u64,
    /// Optional renewable lifetime in seconds.
    pub renew_lifetime: Option<u64>,
    /// Client nonce. Callers are responsible for supplying fresh randomness.
    pub nonce: u32,
    /// Requested response encryption types in preference order.
    pub etypes: Vec<i32>,
    /// KDC option bit string as stored in krb5.conf.
    pub kdc_option_bits: u32,
    /// Optional preauthentication data.
    pub padata: Vec<PaData>,
    /// Send PA-ENC-TIMESTAMP in the first AS-REQ using requested etype defaults.
    pub assume_preauthentication: bool,
    /// Advertise support for AS-REP encrypted padata negotiation.
    pub fast_negotiation: bool,
}

impl AsReqOptions {
    /// Construct options with the default lifetime and AES encryption
    /// types, no KDC options or padata, and FAST negotiation advertised.
    pub fn new(now: UnixTime, nonce: u32) -> (r: Self)
        ensures
            r.now == now,
            r.ticket_lifetime == DEFAULT_TICKET_LIFETIME,
            r.renew_lifetime is None,
            r.nonce == nonce,
            r.etypes@ == spec_default_enctypes(),
            r.kdc_option_bits == 0,
            r.padata@.len() == 0,
            !r.assume_preauthentication,
            r.fast_negotiation,
    {
        AsReqOptions {
            now,
            ticket_lifetime: DEFAULT_TICKET_LIFETIME,
            renew_lifetime: None,
            nonce,
            etypes: default_enctypes(),
            kdc_option_bits: 0,
            padata: Vec::new(),
            assume_preauthentication: false,
            fast_negotiation: true,
        }
    }

    /// Construct options from parsed `[libdefaults]`: its lifetimes, its
    /// ticket encryption types and its KDC options.
    pub fn from_libdefaults(now: UnixTime, nonce: u32, defaults: &LibDefaults) -> (r: Self)
        ensures
            r.now == now,
            r.ticket_lifetime == defaults.ticket_lifetime,
            r.renew_lifetime == spec_renew_lifetime(defaults.renew_lifetime),
            r.nonce == nonce,
            r.etypes@ == spec_configured_enctypes(defaults.default_tkt_enctype_ids@),
            r.kdc_option_bits == spec_configured_kdc_options(
                defaults.kdc_default_options,
                defaults.canonicalize,
            ),
            r.padata@.len() == 0,
            !r.assume_preauthentication,
            r.fast_negotiation,
    {
        let mut options = AsReqOptions::new(now, nonce);
        options.ticket_lifetime = defaults.ticket_lifetime;
        options.renew_lifetime = if defaults.renew_lifetime != 0 {
            Some(defaults.renew_lifetime)
        } else {
            None
        };
        options.etypes = configured_enctypes(&defaults.default_tkt_enctype_ids);
        options.kdc_option_bits = configured_kdc_options(
            defaults.kdc_default_options,
            defaults.canonicalize,
        );
        options
    }

    /// Override the requested ticket lifetime.
    pub fn with_ticket_lifetime(self, ticket_lifetime: u64) -> (r: Self)
        ensures
            r == (AsReqOptions { ticket_lifetime, ..self }),
    {
        AsReqOptions { ticket_lifetime, ..self }
    }

    /// Override the renewable lifetime.
    pub fn with_renew_lifetime(self, renew_lifetime: Option<u64>) -> (r: Self)
        ensures
            r == (AsReqOptions { renew_lifetime, ..self }),
    {
        AsReqOptions { renew_lifetime, ..self }
    }

    /// Override requested response encryption types.
    pub fn with_etypes(self, etypes: Vec<i32>) -> (r: Self)
        ensures
            r == (AsReqOptions { etypes, ..self }),
    {
        AsReqOptions { etypes, ..self }
    }

    /// Override KDC options using the raw krb5.conf bit representation.
    pub fn with_kdc_option_bits(self, kdc_option_bits: u32) -> (r: Self)
        ensures
            r == (AsReqOptions { kdc_option_bits, ..self }),
    {
        AsReqOptions { kdc_option_bits, ..self }
    }

    /// Add preauthentication data.
    pub fn with_padata(self, padata: Vec<PaData>) -> (r: Self)
        ensures
            r == (AsReqOptions { padata, ..self }),
    {
        AsReqOptions { padata, ..self }
    }

    /// Send PA-ENC-TIMESTAMP in the first AS-REQ.
    pub fn with_assume_preauthentication(self, assume_preauthentication: bool) -> (r: Self)
        ensures
            r == (AsReqOptions { assume_preauthentication, ..self }),
    {
        AsReqOptions { assume_preauthentication, ..self }
    }

    /// Configure whether AS login advertises PA-REQ-ENC-PA-REP.
    pub fn with_fast_negotiation(self, fast_negotiation: bool) -> (r: Self)
        ensures
            r == (AsReqOptions { fast_negotiation, ..self }),
    {
        AsReqOptions { fast_negotiation, ..self }
    }
}

/// Options for constructing a TGS-REQ.
#[derive(Clone, Debug, Eq, PartialEq)]
pub struct TgsReqOptions {
    /// Client clock used for request time fields.
    pub now: UnixTime,
    /// Requested service-ticket lifetime in seconds.
    pub ticket_lifetime: u64,
    /// Optional renewable lifetime in seconds.
    pub renew_lifetime: Option<u64>,
    /// Client nonce. Callers are responsible for supplying fresh randomness.
    pub nonce: u32,
    /// Requested response encryption types in preference order.
    pub etypes: Vec<i32>,
    /// KDC option bit string as stored in krb5.conf.
    pub kdc_option_bits: u32,
    /// Additional TGS padata appended after PA-TGS-REQ.
    pub padata: Vec<PaData>,
    /// DER-encoded additional tickets for the TGS request body.
    pub additional_tickets: Vec<Vec<u8>>,
}

impl TgsReqOptions {
    /// Construct options with the default lifetime and AES encryption
    /// types, and no KDC options, padata or additional tickets.
    pub fn new(now: UnixTime, nonce: u32) -> (r: Self)
        ensures
            r.now == now,
            r.ticket_lifetime == DEFAULT_TICKET_LIFETIME,
            r.renew_lifetime is None,
            r.nonce == nonce,
            r.etypes@ == spec_default_enctypes(),
            r.kdc_option_bits == 0,
            r.padata@.len() == 0,
            r.additional_tickets@.len() == 0,
    {
        TgsReqOptions {
            now,
            ticket_lifetime: DEFAULT_TICKET_LIFETIME,
            renew_lifetime: None,
            nonce,
            etypes: default_enctypes(),
            kdc_option_bits: 0,
            padata: Vec::new(),
            additional_tickets: Vec::new(),
        }
    }

    /// Construct options from parsed `[libdefaults]`: its lifetimes, its
    /// TGS encryption types and its KDC options.
    pub fn from_libdefaults(now: UnixTime, nonce: u32, defaults: &LibDefaults) -> (r: Self)
        ensures
            r.now == now,
            r.ticket_lifetime == defaults.ticket_lifetime,
            r.renew_lifetime == spec_renew_lifetime(defaults.renew_lifetime),
            r.nonce == nonce,
            r.etypes@ == spec_configured_enctypes(defaults.default_tgs_enctype_ids@),
            r.kdc_option_bits == spec_configured_kdc_options(
                defaults.kdc_default_options,
                defaults.canonicalize,
            ),
            r.padata@.len() == 0,
            r.additional_tickets@.len() == 0,
    {
        let mut options = TgsReqOptions::new(now, nonce);
        options.ticket_lifetime = defaults.ticket_lifetime;
        options.renew_lifetime = if defaults.renew_lifetime != 0 {
            Some(defaults.renew_lifetime)
        } else {
            None
        };
        options.etypes = configured_enctypes(&defaults.default_tgs_enctype_ids);
        options.kdc_option_bits = configured_kdc_options(
            defaults.kdc_default_options,
            defaults.canonicalize,
        );
        options
    }

    /// Override the requested service-ticket lifetime.
    pub fn with_ticket_lifetime(self, ticket_lifetime: u64) -> (r: Self)
        ensures
            r == (TgsReqOptions { ticket_lifetime, ..self }),
    {
        TgsReqOptions { ticket_lifetime, ..self }
    }

    /// Override the renewable lifetime.
    pub fn with_renew_lifetime(self, renew_lifetime: Option<u64>) -> (r: Self)
        ensures
            r == (TgsReqOptions { renew_lifetime, ..self }),
    {
        TgsReqOptions { renew_lifetime, ..self }
    }

    /// Override requested response encryption types.
    pub fn with_etypes(self, etypes: Vec<i32>) -> (r: Self)
        ensures
            r == (TgsReqOptions { etypes, ..self }),
    {
        TgsReqOptions { etypes, ..self }
    }

    /// Override KDC options using the raw krb5.conf bit representation.
    pub fn with_kdc_option_bits(self, kdc_option_bits: u32) -> (r: Self)
        ensures
            r == (TgsReqOptions { kdc_option_bits, ..self }),
    {
        TgsReqOptions { kdc_option_bits, ..self }
    }

    /// Add additional TGS padata.
    pub fn with_padata(self, padata: Vec<PaData>) -> (r: Self)
        ensures
            r == (TgsReqOptions { padata, ..self }),
    {
        TgsReqOptions { padata, ..self }
    }

    /// Add additional tickets to the TGS request body.
    pub fn with_additional_tickets(self, additional_tickets: Vec<Vec<u8>>) -> (r: Self)
        ensures
            r == (TgsReqOptions { additional_tickets, ..self }),
    {
        TgsReqOptions { additional_tickets, ..self }
    }

    /// Add the TGS renewal flags used for renewing an existing ticket.
    pub fn with_renewal(self) -> (r: Self)
        ensures
            r == (TgsReqOptions {
                kdc_option_bits: self.kdc_option_bits | KDC_OPTION_RENEWABLE | KDC_OPTION_RENEW,
                ..self
            }),
    {
        let kdc_option_bits = renewal_kdc_option_bits(self.kdc_option_bits);
        TgsReqOptions { kdc_option_bits, ..self }
    }
}

/// A keyed checksum: its type and its bytes.
#[derive(Clone, Debug, Eq, PartialEq)]
pub struct Checksum {
    /// Kerberos checksum type id.
    pub checksum_type: i32,
    /// Checksum bytes.
    pub checksum: Vec<u8>,
}

/// Options for constructing a client AP-REQ.
#[derive(Clone, Debug, Eq, PartialEq)]
pub struct ApReqOptions {
    /// Raw AP option bit string.
    pub ap_option_bits: u32,
    /// Optional authenticator checksum.
    pub checksum: Option<Checksum>,
    /// Optional client-selected subkey.
    pub subkey: Option<EncryptionKey>,
    /// Optional client sequence number.
    pub sequence_number: Option<u32>,
}

impl ApReqOptions {
    /// Construct AP-REQ options with no flags or optional authenticator fields.
    pub fn new() -> (r: Self)
        ensures
            r.ap_option_bits == 0,
            r.checksum is None,
            r.subkey is None,
            r.sequence_number is None,
    {
        ApReqOptions { ap_option_bits: 0, checksum: None, subkey: None, sequence_number: None }
    }

    /// Override AP-REQ option bits.
    pub fn with_ap_option_bits(self, ap_option_bits: u32) -> (r: Self)
        ensures
            r == (ApReqOptions { ap_option_bits, ..self }),
    {
        ApReqOptions { ap_option_bits, ..self }
    }

    /// Set or clear the authenticator checksum.
    pub fn with_checksum(self, checksum: Option<Checksum>) -> (r: Self)
        ensures
            r == (ApReqOptions { checksum, ..self }),
    {
        ApReqOptions { checksum, ..self }
    }

    /// Set or clear the client-selected subkey.
    pub fn with_subkey(self, subkey: Option<EncryptionKey>) -> (r: Self)
        ensures
            r == (ApReqOptions { subkey, ..self }),
    {
        ApReqOptions { subkey, ..self }
    }

    /// Set or clear the client sequence number.
    pub fn with_sequence_number(self, sequence_number: Option<u32>) -> (r: Self)
        ensures
            r == (ApReqOptions { sequence_number, ..self }),
    {
        ApReqOptions { sequence_number, ..self }
    }
}

impl Default for ApReqOptions {
    fn default() -> (r: Self)
        ensures
            r.ap_option_bits == 0,
            r.checksum is None,
            r.subkey is None,
            r.sequence_number is None,
    {
        ApReqOptions::new()
    }
}

/// Options for constructing a kpasswd request from a service ticket.
#[derive(Clone, Debug, Eq, PartialEq)]
pub struct KpasswdRequestOptions {
    /// Authenticator and KRB-PRIV timestamp.
    pub timestamp: UnixTime,
    /// Authenticator and KRB-PRIV microseconds.
    pub cusec: u32,
    /// Authenticator and KRB-PRIV sequence number.
    pub sequence_number: u32,
    /// Sender address used in the KRB-PRIV encrypted part.
    pub sender_address: HostAddress,
    /// Optional recipient address used in the KRB-PRIV encrypted part.
    pub recipient_address: Option<HostAddress>,
}

impl KpasswdRequestOptions {
    /// Construct options with the required timestamp, sequence number and
    /// sender address, and no recipient address.
    pub fn new(timestamp: UnixTime, cusec: u32, sequence_number: u32, sender_address: HostAddress) -> (r:
        Self)
        ensures
            r == (KpasswdRequestOptions {
                timestamp,
                cusec,
                sequence_number,
                sender_address,
                recipient_address: None,
            }),
    {
        KpasswdRequestOptions { timestamp, cusec, sequence_number, sender_address, recipient_address: None }
    }

    /// Set the optional recipient address.
    pub fn with_recipient_address(self, recipient_address: HostAddress) -> (r: Self)
        ensures
            r == (KpasswdRequestOptions { recipient_address: Some(recipient_address), ..self }),
    {
        KpasswdRequestOptions { recipient_address: Some(recipient_address), ..self }
    }
}

} // verus!
