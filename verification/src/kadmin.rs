//! Password-change (kpasswd) message frames: a six-byte header of total
//! length, protocol version and first-section length, all big-endian, then
//! the DER sections themselves; and the cleartext result a server answers.
//!
//! The sections are carried as their DER bytes: decoding and encrypting
//! them is the business of the Kerberos message layer.

use vstd::prelude::*;

use vstd::utf8::{decode_utf8, valid_utf8};

use crate::ccache::HostAddress;
use crate::client::UnixTime;
use crate::keytab::EncryptionKey;
use crate::text::{copy_string, string_from_utf8_lossy, utf8_lossy};
use crate::wire::{decode_u16, extend_bytes, push_u16, spec_decode_u16, spec_u16_bytes, Endian};

verus! {

/// Password-change request protocol version (`0xff80`).
pub const CHANGE_PASSWORD_REQUEST_VERSION: u16 = 0xff80;

/// Password-change reply protocol version.
pub const CHANGE_PASSWORD_REPLY_VERSION: u16 = 1;

/// Password change succeeded.
pub const KPASSWD_SUCCESS: u16 = 0;

/// Request was malformed.
pub const KPASSWD_MALFORMED: u16 = 1;

/// Server hard error.
pub const KPASSWD_HARDERROR: u16 = 2;

/// Authentication error.
pub const KPASSWD_AUTHERROR: u16 = 3;

/// Server soft error.
pub const KPASSWD_SOFTERROR: u16 = 4;

/// Access denied.
pub const KPASSWD_ACCESSDENIED: u16 = 5;

/// Bad protocol version.
pub const KPASSWD_BAD_VERSION: u16 = 6;

/// Initial ticket flag is required.
pub const KPASSWD_INITIAL_FLAG_NEEDED: u16 = 7;

/// Length of the frame header: three big-endian `u16` values.
pub const HEADER_LEN: usize = 6;

/// The largest frame a two-byte length prefix can describe.
pub const MAX_FRAME_LEN: usize = 0xffff;

/// kpasswd frame errors.
#[derive(Clone, Debug, Eq, PartialEq)]
pub enum Error {
    /// The frame is too short to contain the kpasswd header.
    FrameTooShort {
        /// Actual byte length.
        actual: usize,
    },
    /// The frame prefix length is smaller than the fixed kpasswd header.
    InvalidMessageLength(u16),
    /// The frame prefix length exceeds the supplied bytes.
    TruncatedFrame {
        /// Expected frame byte length.
        expected: usize,
        /// Actual supplied byte length.
        actual: usize,
    },
    /// The reply protocol version is not supported.
    InvalidReplyVersion(u16),
    /// The request protocol version is not supported.
    InvalidRequestVersion(u16),
    /// The AP-REQ length points outside the frame body.
    InvalidApReqLength {
        /// AP-REQ byte length from the frame header.
        ap_req_length: u16,
        /// Available frame body byte length.
        body_length: usize,
    },
    /// The response data is too short to hold a result code.
    ResponseTooShort {
        /// Actual response byte length.
        actual: usize,
    },
    /// A non-error reply did not include a KRB-PRIV section.
    MissingKrbPriv,
    /// A failure reply did not include a KRB-ERROR section.
    MissingKrbError,
    /// A successful reply did not include an AP-REP section.
    MissingApRep,
    /// A KRB-ERROR reply included AP-REP and/or KRB-PRIV sections.
    InvalidErrorReplyPayload,
    /// kpasswd returned a non-success result code.
    PasswordChangeFailed {
        /// kpasswd result code.
        code: u16,
        /// kpasswd result text.
        text: String,
    },
    /// The AP-REQ section is too large for the two-byte length field.
    ApReqTooLarge {
        /// AP-REQ byte length.
        actual: usize,
    },
    /// The frame is too large for the two-byte length prefix.
    FrameTooLarge {
        /// Frame byte length.
        actual: usize,
    },
}

/// The header fields and body of a frame.
pub struct FrameModel {
    pub message_length: u16,
    pub version: u16,
    pub payload_length: u16,
    pub body: Seq<u8>,
}

/// A frame read from the front of `b`: its header, then the body up to the
/// length the header gives; bytes past that length are ignored.
pub open spec fn spec_parse_frame(b: Seq<u8>) -> Result<FrameModel, Error> {
    if b.len() < 6 {
        Err(Error::FrameTooShort { actual: b.len() as usize })
    } else {
        let message_length = spec_decode_u16(b[0], b[1], Endian::Big);
        if message_length < 6 {
            Err(Error::InvalidMessageLength(message_length))
        } else if message_length > b.len() {
            Err(Error::TruncatedFrame { expected: message_length as usize, actual: b.len() as usize })
        } else {
            Ok(
                FrameModel {
                    message_length,
                    version: spec_decode_u16(b[2], b[3], Endian::Big),
                    payload_length: spec_decode_u16(b[4], b[5], Endian::Big),
                    body: b.subrange(6, message_length as int),
                },
            )
        }
    }
}

/// The bytes of a frame with the given version, first-section length and
/// body, its length prefix counting the header.
pub open spec fn spec_frame_bytes(version: u16, payload_length: u16, body: Seq<u8>) -> Seq<u8> {
    spec_u16_bytes((6 + body.len()) as u16, Endian::Big) + spec_u16_bytes(version, Endian::Big)
        + spec_u16_bytes(payload_length, Endian::Big) + body
}

struct Frame {
    message_length: u16,
    version: u16,
    payload_length: u16,
    body: Vec<u8>,
}

fn parse_header(bytes: &[u8]) -> (r: Result<Frame, Error>)
    ensures
        match spec_parse_frame(bytes@) {
            Ok(f) => r matches Ok(frame) && frame.message_length == f.message_length && frame.version
                == f.version && frame.payload_length == f.payload_length && frame.body@ == f.body,
            Err(e) => r == Err::<Frame, Error>(e),
        },
{
    if bytes.len() < HEADER_LEN {
        return Err(Error::FrameTooShort { actual: bytes.len() });
    }
    let message_length = decode_u16(bytes[0], bytes[1], Endian::Big);
    let frame_len = message_length as usize;
    if frame_len < HEADER_LEN {
        return Err(Error::InvalidMessageLength(message_length));
    }
    if frame_len > bytes.len() {
        return Err(Error::TruncatedFrame { expected: frame_len, actual: bytes.len() });
    }
    let version = decode_u16(bytes[2], bytes[3], Endian::Big);
    let payload_length = decode_u16(bytes[4], bytes[5], Endian::Big);
    let mut body: Vec<u8> = Vec::new();
    extend_bytes(&mut body, &bytes[HEADER_LEN..frame_len]);
    Ok(Frame { message_length, version, payload_length, body })
}

fn write_frame(version: u16, payload_length: u16, first: &[u8], second: &[u8]) -> (r: Vec<u8>)
    requires
        6 + first@.len() + second@.len() <= 0xffff,
    ensures
        r@ == spec_frame_bytes(version, payload_length, first@ + second@),
{
    let frame_length = (HEADER_LEN + first.len() + second.len()) as u16;
    let mut frame: Vec<u8> = Vec::new();
    push_u16(&mut frame, frame_length, Endian::Big);
    push_u16(&mut frame, version, Endian::Big);
    push_u16(&mut frame, payload_length, Endian::Big);
    extend_bytes(&mut frame, first);
    extend_bytes(&mut frame, second);
    proof {
        assert(frame@ =~= spec_frame_bytes(version, payload_length, first@ + second@));
    }
    frame
}

// ---------------------------------------------------------------------------
// Requests

/// Password-change request frame: the AP-REQ and KRB-PRIV sections.
#[derive(Clone, Debug, Eq, PartialEq)]
pub struct Request {
    /// DER-encoded AP-REQ authenticating the password-change request.
    pub ap_req: Vec<u8>,
    /// DER-encoded KRB-PRIV carrying the encrypted password-change data.
    pub krb_priv: Vec<u8>,
}

/// A request as plain values.
pub struct RequestModel {
    pub ap_req: Seq<u8>,
    pub krb_priv: Seq<u8>,
}

impl View for Request {
    type V = RequestModel;

    open spec fn view(&self) -> RequestModel {
        RequestModel { ap_req: self.ap_req@, krb_priv: self.krb_priv@ }
    }
}

/// A request read from a frame: the request version, then a first-section
/// length that leaves both sections non-empty.
pub open spec fn spec_parse_request(b: Seq<u8>) -> Result<RequestModel, Error> {
    match spec_parse_frame(b) {
        Err(e) => Err(e),
        Ok(f) => if f.version != CHANGE_PASSWORD_REQUEST_VERSION {
            Err(Error::InvalidRequestVersion(f.version))
        } else if f.payload_length == 0 || f.payload_length >= f.body.len() {
            Err(
                Error::InvalidApReqLength {
                    ap_req_length: f.payload_length,
                    body_length: f.body.len() as usize,
                },
            )
        } else {
            Ok(
                RequestModel {
                    ap_req: f.body.subrange(0, f.payload_length as int),
                    krb_priv: f.body.subrange(f.payload_length as int, f.body.len() as int),
                },
            )
        },
    }
}

/// The frame of a request, or the error when a length does not fit the
/// two-byte fields.
pub open spec fn spec_encode_request(r: RequestModel) -> Result<Seq<u8>, Error> {
    if r.ap_req.len() > 0xffff {
        Err(Error::ApReqTooLarge { actual: r.ap_req.len() as usize })
    } else if 6 + r.ap_req.len() + r.krb_priv.len() > 0xffff {
        Err(Error::FrameTooLarge { actual: (6 + r.ap_req.len() + r.krb_priv.len()) as usize })
    } else {
        Ok(
            spec_frame_bytes(
                CHANGE_PASSWORD_REQUEST_VERSION,
                r.ap_req.len() as u16,
                r.ap_req + r.krb_priv,
            ),
        )
    }
}

impl Request {
    /// Parse a password-change request frame into its two sections.
    pub fn parse(bytes: &[u8]) -> (r: Result<Self, Error>)
        ensures
            match spec_parse_request(bytes@) {
                Ok(m) => r matches Ok(req) && req@ == m,
                Err(e) => r == Err::<Request, Error>(e),
            },
    {
        let frame = match parse_header(bytes) {
            Ok(f) => f,
            Err(e) => return Err(e),
        };
        if frame.version != CHANGE_PASSWORD_REQUEST_VERSION {
            return Err(Error::InvalidRequestVersion(frame.version));
        }
        let ap_req_end = frame.payload_length as usize;
        if ap_req_end == 0 || ap_req_end >= frame.body.len() {
            return Err(
                Error::InvalidApReqLength {
                    ap_req_length: frame.payload_length,
                    body_length: frame.body.len(),
                },
            );
        }
        let mut ap_req: Vec<u8> = Vec::new();
        extend_bytes(&mut ap_req, &frame.body.as_slice()[0..ap_req_end]);
        let mut krb_priv: Vec<u8> = Vec::new();
        extend_bytes(&mut krb_priv, &frame.body.as_slice()[ap_req_end..frame.body.len()]);
        Ok(Request { ap_req, krb_priv })
    }

    /// Parse a password-change request frame.
    pub fn unmarshal(bytes: &[u8]) -> (r: Result<Self, Error>)
        ensures
            match spec_parse_request(bytes@) {
                Ok(m) => r matches Ok(req) && req@ == m,
                Err(e) => r == Err::<Request, Error>(e),
            },
    {
        Self::parse(bytes)
    }

    /// Encode a password-change request frame.
    pub fn encode(&self) -> (r: Result<Vec<u8>, Error>)
        requires
            6 + self.ap_req@.len() + self.krb_priv@.len() <= usize::MAX,
        ensures
            match spec_encode_request(self@) {
                Ok(b) => r matches Ok(v) && v@ == b,
                Err(e) => r == Err::<Vec<u8>, Error>(e),
            },
    {
        if self.ap_req.len() > MAX_FRAME_LEN {
            return Err(Error::ApReqTooLarge { actual: self.ap_req.len() });
        }
        if HEADER_LEN + self.ap_req.len() + self.krb_priv.len() > MAX_FRAME_LEN {
            return Err(Error::FrameTooLarge { actual: HEADER_LEN + self.ap_req.len() + self.krb_priv.len() });
        }
        Ok(
            write_frame(
                CHANGE_PASSWORD_REQUEST_VERSION,
                self.ap_req.len() as u16,
                self.ap_req.as_slice(),
                self.krb_priv.as_slice(),
            ),
        )
    }

    /// Encode a password-change request frame.
    pub fn marshal(&self) -> (r: Result<Vec<u8>, Error>)
        requires
            6 + self.ap_req@.len() + self.krb_priv@.len() <= usize::MAX,
        ensures
            match spec_encode_request(self@) {
                Ok(b) => r matches Ok(v) && v@ == b,
                Err(e) => r == Err::<Vec<u8>, Error>(e),
            },
    {
        self.encode()
    }
}

proof fn lemma_u16_bytes_of_decode(b0: u8, b1: u8)
    ensures
        spec_u16_bytes(spec_decode_u16(b0, b1, Endian::Big), Endian::Big) == seq![b0, b1],
{
    let v = spec_decode_u16(b0, b1, Endian::Big);
    assert(((((b0 as u16) << 8u16) | (b1 as u16)) >> 8u16) as u8 == b0) by (bit_vector);
    assert(((((b0 as u16) << 8u16) | (b1 as u16))) as u8 == b1) by (bit_vector);
    assert(spec_u16_bytes(v, Endian::Big) =~= seq![b0, b1]);
}

proof fn lemma_frame_header(version: u16, payload_length: u16, body: Seq<u8>)
    requires
        6 + body.len() <= 0xffff,
    ensures
        spec_parse_frame(spec_frame_bytes(version, payload_length, body)) == Ok::<FrameModel, Error>(
            FrameModel {
                message_length: (6 + body.len()) as u16,
                version,
                payload_length,
                body,
            },
        ),
{
    let b = spec_frame_bytes(version, payload_length, body);
    let ml = (6 + body.len()) as u16;
    crate::wire::lemma_u16_roundtrip(ml, Endian::Big);
    crate::wire::lemma_u16_roundtrip(version, Endian::Big);
    crate::wire::lemma_u16_roundtrip(payload_length, Endian::Big);
    assert(b[0] == spec_u16_bytes(ml, Endian::Big)[0]);
    assert(b[1] == spec_u16_bytes(ml, Endian::Big)[1]);
    assert(b[2] == spec_u16_bytes(version, Endian::Big)[0]);
    assert(b[3] == spec_u16_bytes(version, Endian::Big)[1]);
    assert(b[4] == spec_u16_bytes(payload_length, Endian::Big)[0]);
    assert(b[5] == spec_u16_bytes(payload_length, Endian::Big)[1]);
    assert(b.subrange(6, ml as int) =~= body);
}

/// Reading back an encoded request gives the request back, when both of
/// its sections are non-empty and the frame fits its length prefix.
pub proof fn lemma_request_roundtrip(r: RequestModel)
    requires
        r.ap_req.len() > 0,
        r.krb_priv.len() > 0,
        spec_encode_request(r) is Ok,
    ensures
        match spec_encode_request(r) {
            Ok(b) => spec_parse_request(b) == Ok::<RequestModel, Error>(r),
            Err(_) => false,
        },
{
    let body = r.ap_req + r.krb_priv;
    let n = r.ap_req.len() as u16;
    let b = spec_frame_bytes(CHANGE_PASSWORD_REQUEST_VERSION, n, body);
    assert(spec_encode_request(r) == Ok::<Seq<u8>, Error>(b));
    lemma_frame_header(CHANGE_PASSWORD_REQUEST_VERSION, n, body);
    let f = FrameModel {
        message_length: (6 + body.len()) as u16,
        version: CHANGE_PASSWORD_REQUEST_VERSION,
        payload_length: n,
        body,
    };
    assert(spec_parse_frame(b) == Ok::<FrameModel, Error>(f));
    assert(n as int == r.ap_req.len());
    assert(body.subrange(0, n as int) =~= r.ap_req);
    assert(body.subrange(n as int, body.len() as int) =~= r.krb_priv);
}

/// Encoding a request read from a frame gives back the frame's bytes, up
/// to the length its header gives.
pub proof fn lemma_request_frame_roundtrip(b: Seq<u8>)
    requires
        spec_parse_request(b) is Ok,
    ensures
        match spec_parse_request(b) {
            Ok(m) => spec_encode_request(m) == Ok::<Seq<u8>, Error>(
                b.subrange(0, (6 + m.ap_req.len() + m.krb_priv.len()) as int),
            ),
            Err(_) => false,
        },
{
    let f = spec_parse_frame(b)->Ok_0;
    let m = spec_parse_request(b)->Ok_0;
    lemma_u16_bytes_of_decode(b[0], b[1]);
    lemma_u16_bytes_of_decode(b[2], b[3]);
    lemma_u16_bytes_of_decode(b[4], b[5]);
    assert(m.ap_req + m.krb_priv =~= f.body);
    assert(spec_frame_bytes(CHANGE_PASSWORD_REQUEST_VERSION, m.ap_req.len() as u16, f.body)
        =~= b.subrange(0, f.message_length as int));
}

/// Complete password-change request assembled for transport.
#[derive(Clone, Debug, Eq, PartialEq)]
pub struct BuiltChangePasswordRequest {
    /// Framed request message.
    pub request: Request,
    /// Encoded kpasswd request frame.
    pub der: Vec<u8>,
    /// Reply key used for the request subkey and KRB-PRIV encryption.
    pub reply_key: EncryptionKey,
}

/// Options for constructing a full kpasswd request message.
#[derive(Clone, Debug, Eq, PartialEq)]
pub struct ChangePasswdMessageOptions {
    /// Authenticator and KRB-PRIV timestamp.
    pub timestamp: UnixTime,
    /// Authenticator and KRB-PRIV microseconds.
    pub cusec: u32,
    /// Authenticator and KRB-PRIV sequence number.
    pub sequence_number: u32,
    /// Sender address used in the KRB-PRIV encrypted part.
    pub sender_address: HostAddress,
    /// Optional recipient address used in the KRB-PRIV encrypted part.
    pub recipient_address: Option<HostAddress>,
}

impl ChangePasswdMessageOptions {
    /// Construct options with the required authenticator timestamp,
    /// microseconds, sequence number and sender address, and no recipient.
    pub fn new(timestamp: UnixTime, cusec: u32, sequence_number: u32, sender_address: HostAddress) -> (r:
        Self)
        ensures
            r == (ChangePasswdMessageOptions {
                timestamp,
                cusec,
                sequence_number,
                sender_address,
                recipient_address: None,
            }),
    {
        ChangePasswdMessageOptions {
            timestamp,
            cusec,
            sequence_number,
            sender_address,
            recipient_address: None,
        }
    }

    /// Set the optional recipient address.
    pub fn with_recipient_address(self, recipient_address: HostAddress) -> (r: Self)
        ensures
            r == (ChangePasswdMessageOptions { recipient_address: Some(recipient_address), ..self }),
    {
        ChangePasswdMessageOptions { recipient_address: Some(recipient_address), ..self }
    }
}

// ---------------------------------------------------------------------------
// Replies

/// Cleartext password-change response code and text.
#[derive(Clone, Debug, Eq, PartialEq)]
pub struct ChangePasswordResult {
    /// Result code from the first two bytes.
    pub code: u16,
    /// Result text from the remaining bytes.
    pub text: String,
}

impl ChangePasswordResult {
    /// Parse a cleartext password-change response: a big-endian code, then
    /// text decoded as UTF-8 with ill-formed sequences replaced.
    pub fn parse(bytes: &[u8]) -> (r: Result<Self, Error>)
        ensures
            bytes@.len() < 2 ==> r == Err::<ChangePasswordResult, Error>(
                Error::ResponseTooShort { actual: bytes@.len() as usize },
            ),
            bytes@.len() >= 2 ==> (r matches Ok(res) && res.code == spec_decode_u16(
                bytes@[0],
                bytes@[1],
                Endian::Big,
            ) && res.text@ == utf8_lossy(bytes@.subrange(2, bytes@.len() as int))),
    {
        if bytes.len() < 2 {
            return Err(Error::ResponseTooShort { actual: bytes.len() });
        }
        let code = decode_u16(bytes[0], bytes[1], Endian::Big);
        let text = string_from_utf8_lossy(&bytes[2..bytes.len()]);
        Ok(ChangePasswordResult { code, text })
    }

    /// Whether this result indicates a successful password change.
    pub fn is_success(&self) -> (r: bool)
        ensures
            r == (self.code == KPASSWD_SUCCESS),
    {
        self.code == KPASSWD_SUCCESS
    }

    /// Return success, or an error carrying the kpasswd failure code and text.
    pub fn ensure_success(&self) -> (r: Result<(), Error>)
        ensures
            self.code == KPASSWD_SUCCESS ==> r is Ok,
            self.code != KPASSWD_SUCCESS ==> (r matches Err(Error::PasswordChangeFailed { code, text })
                && code == self.code && text@ == self.text@),
    {
        if self.is_success() {
            Ok(())
        } else {
            Err(Error::PasswordChangeFailed { code: self.code, text: copy_string(&self.text) })
        }
    }
}

/// A password-change reply frame: an AP-REP and KRB-PRIV pair, or a
/// KRB-ERROR.
#[derive(Clone, Debug, Eq, PartialEq)]
pub struct Reply {
    /// Total message length from the two-byte frame prefix.
    pub message_length: u16,
    /// Protocol version from the reply frame.
    pub version: u16,
    /// Byte length of the AP-REP section, or zero for a KRB-ERROR reply.
    pub ap_rep_length: u16,
    /// DER-encoded AP-REP section of a successful protocol reply.
    pub ap_rep: Option<Vec<u8>>,
    /// DER-encoded KRB-PRIV section of a successful protocol reply.
    pub krb_priv: Option<Vec<u8>>,
    /// DER-encoded KRB-ERROR section of an error reply.
    pub krb_error: Option<Vec<u8>>,
    /// Password-change result, once read.
    pub result: Option<ChangePasswordResult>,
}

/// The sections of a reply as plain values.
pub struct ReplySectionsModel {
    pub ap_rep: Option<Seq<u8>>,
    pub krb_priv: Option<Seq<u8>>,
    pub krb_error: Option<Seq<u8>>,
}

/// The bytes of an optional section.
pub open spec fn spec_section(s: Option<Vec<u8>>) -> Option<Seq<u8>> {
    match s {
        Some(v) => Some(v@),
        None => None,
    }
}

/// The frame of a reply's sections: a KRB-ERROR alone after a zero
/// first-section length, else the AP-REP then the KRB-PRIV; or the error
/// when sections are missing or extra, or a length does not fit.
pub open spec fn spec_encode_reply(m: ReplySectionsModel) -> Result<Seq<u8>, Error> {
    match m.krb_error {
        Some(body) => if m.ap_rep is Some || m.krb_priv is Some {
            Err(Error::InvalidErrorReplyPayload)
        } else if 6 + body.len() > 0xffff {
            Err(Error::FrameTooLarge { actual: (6 + body.len()) as usize })
        } else {
            Ok(spec_frame_bytes(CHANGE_PASSWORD_REPLY_VERSION, 0, body))
        },
        None => match (m.ap_rep, m.krb_priv) {
            (None, _) => Err(Error::MissingApRep),
            (Some(_), None) => Err(Error::MissingKrbPriv),
            (Some(ap_rep), Some(krb_priv)) => if ap_rep.len() > 0xffff {
                Err(Error::FrameTooLarge { actual: ap_rep.len() as usize })
            } else if 6 + ap_rep.len() + krb_priv.len() > 0xffff {
                Err(Error::FrameTooLarge { actual: (6 + ap_rep.len() + krb_priv.len()) as usize })
            } else {
                Ok(
                    spec_frame_bytes(
                        CHANGE_PASSWORD_REPLY_VERSION,
                        ap_rep.len() as u16,
                        ap_rep + krb_priv,
                    ),
                )
            },
        },
    }
}

impl Reply {
    /// The sections of this reply.
    pub open spec fn sections(&self) -> ReplySectionsModel {
        ReplySectionsModel {
            ap_rep: spec_section(self.ap_rep),
            krb_priv: spec_section(self.krb_priv),
            krb_error: spec_section(self.krb_error),
        }
    }

    /// Whether every section fits beside the others in a `usize`.
    pub open spec fn sections_fit(&self) -> bool {
        let len = |s: Option<Vec<u8>>|
            match s {
                Some(v) => v@.len() as int,
                None => 0int,
            };
        6 + len(self.ap_rep) + len(self.krb_priv) + len(self.krb_error) <= usize::MAX
    }

    /// Whether the reply carried KRB-ERROR instead of AP-REP/KRB-PRIV.
    pub fn is_krb_error(&self) -> (r: bool)
        ensures
            r == self.krb_error is Some,
    {
        self.krb_error.is_some()
    }

    /// The password-change result code, when a result was read.
    pub fn result_code(&self) -> (r: Option<u16>)
        ensures
            r == (match self.result {
                Some(res) => Some(res.code),
                None => None::<u16>,
            }),
    {
        match &self.result {
            Some(res) => Some(res.code),
            None => None,
        }
    }

    /// The password-change result text, when a result was read.
    pub fn result_text(&self) -> (r: Option<&str>)
        ensures
            match self.result {
                Some(res) => r matches Some(t) && t@ == res.text@,
                None => r is None,
            },
    {
        match &self.result {
            Some(res) => Some(res.text.as_str()),
            None => None,
        }
    }

    /// Encode this reply into a kpasswd response frame.
    pub fn encode(&self) -> (r: Result<Vec<u8>, Error>)
        requires
            self.sections_fit(),
        ensures
            match spec_encode_reply(self.sections()) {
                Ok(b) => r matches Ok(v) && v@ == b,
                Err(e) => r == Err::<Vec<u8>, Error>(e),
            },
    {
        if let Some(body) = &self.krb_error {
            if self.ap_rep.is_some() || self.krb_priv.is_some() {
                return Err(Error::InvalidErrorReplyPayload);
            }
            if HEADER_LEN + body.len() > MAX_FRAME_LEN {
                return Err(Error::FrameTooLarge { actual: HEADER_LEN + body.len() });
            }
            let empty: Vec<u8> = Vec::new();
            let frame = write_frame(CHANGE_PASSWORD_REPLY_VERSION, 0, body.as_slice(), empty.as_slice());
            proof {
                assert(body@ + empty@ =~= body@);
            }
            return Ok(frame);
        }
        let ap_rep = match &self.ap_rep {
            Some(a) => a,
            None => return Err(Error::MissingApRep),
        };
        let krb_priv = match &self.krb_priv {
            Some(k) => k,
            None => return Err(Error::MissingKrbPriv),
        };
        if ap_rep.len() > MAX_FRAME_LEN {
            return Err(Error::FrameTooLarge { actual: ap_rep.len() });
        }
        if HEADER_LEN + ap_rep.len() + krb_priv.len() > MAX_FRAME_LEN {
            return Err(Error::FrameTooLarge { actual: HEADER_LEN + ap_rep.len() + krb_priv.len() });
        }
        Ok(
            write_frame(
                CHANGE_PASSWORD_REPLY_VERSION,
                ap_rep.len() as u16,
                ap_rep.as_slice(),
                krb_priv.as_slice(),
            ),
        )
    }

    /// Encode this reply into a kpasswd response frame.
    pub fn marshal(&self) -> (r: Result<Vec<u8>, Error>)
        requires
            self.sections_fit(),
        ensures
            match spec_encode_reply(self.sections()) {
                Ok(b) => r matches Ok(v) && v@ == b,
                Err(e) => r == Err::<Vec<u8>, Error>(e),
            },
    {
        self.encode()
    }
}

} // verus!
