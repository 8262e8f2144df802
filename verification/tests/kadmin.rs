use rskrb5::ccache::HostAddress;
use rskrb5::client::UnixTime;
use rskrb5::kadmin::ChangePasswdMessageOptions;
use rskrb5::kadmin::{
    ChangePasswordResult, Error, Reply, Request, CHANGE_PASSWORD_REPLY_VERSION,
    CHANGE_PASSWORD_REQUEST_VERSION, KPASSWD_SOFTERROR, KPASSWD_SUCCESS,
};

fn sample_request() -> Request {
    Request { ap_req: vec![0x6e, 0x01, 0xaa], krb_priv: vec![0x75, 0x00] }
}

#[test]
fn request_encodes_header_then_sections() {
    let frame = sample_request().encode().unwrap();
    assert_eq!(frame, vec![0x00, 0x0b, 0xff, 0x80, 0x00, 0x03, 0x6e, 0x01, 0xaa, 0x75, 0x00]);
    assert_eq!(sample_request().marshal().unwrap(), frame);
}

#[test]
fn request_roundtrips_through_its_frame() {
    let request = sample_request();
    let frame = request.encode().unwrap();
    assert_eq!(Request::parse(&frame).unwrap(), request);
    assert_eq!(Request::unmarshal(&frame).unwrap(), request);
}

#[test]
fn request_parse_ignores_bytes_past_the_frame() {
    let mut frame = sample_request().encode().unwrap();
    frame.extend_from_slice(&[1, 2, 3]);
    assert_eq!(Request::parse(&frame).unwrap(), sample_request());
}

#[test]
fn request_parse_rejects_short_and_bad_lengths() {
    assert_eq!(Request::parse(&[0, 6, 0xff]), Err(Error::FrameTooShort { actual: 3 }));
    assert_eq!(Request::parse(&[0, 5, 0xff, 0x80, 0, 0]), Err(Error::InvalidMessageLength(5)));
    assert_eq!(
        Request::parse(&[0, 9, 0xff, 0x80, 0, 1, 7]),
        Err(Error::TruncatedFrame { expected: 9, actual: 7 })
    );
}

#[test]
fn request_parse_rejects_reply_version() {
    assert_eq!(
        Request::parse(&[0, 8, 0, 1, 0, 1, 7, 8]),
        Err(Error::InvalidRequestVersion(CHANGE_PASSWORD_REPLY_VERSION))
    );
}

#[test]
fn request_parse_rejects_ap_req_length_outside_body() {
    assert_eq!(
        Request::parse(&[0, 8, 0xff, 0x80, 0, 0, 7, 8]),
        Err(Error::InvalidApReqLength { ap_req_length: 0, body_length: 2 })
    );
    assert_eq!(
        Request::parse(&[0, 8, 0xff, 0x80, 0, 2, 7, 8]),
        Err(Error::InvalidApReqLength { ap_req_length: 2, body_length: 2 })
    );
}

#[test]
fn request_encode_rejects_oversized_sections() {
    let big = Request { ap_req: vec![0; 0x1_0000], krb_priv: vec![1] };
    assert_eq!(big.encode(), Err(Error::ApReqTooLarge { actual: 0x1_0000 }));
    let wide = Request { ap_req: vec![0; 0x8000], krb_priv: vec![1; 0x8000] };
    assert_eq!(wide.encode(), Err(Error::FrameTooLarge { actual: 0x1_0006 }));
}

#[test]
fn request_version_constant_matches_frame() {
    assert_eq!(CHANGE_PASSWORD_REQUEST_VERSION, 0xff80);
}

#[test]
fn change_password_result_parses_code_and_text() {
    let result = ChangePasswordResult::parse(&[0, 4, b'n', b'o']).unwrap();
    assert_eq!(result.code, KPASSWD_SOFTERROR);
    assert_eq!(result.text, "no");
    assert!(!result.is_success());
    assert_eq!(
        result.ensure_success(),
        Err(Error::PasswordChangeFailed { code: 4, text: "no".to_string() })
    );
}

#[test]
fn change_password_result_replaces_ill_formed_text() {
    let result = ChangePasswordResult::parse(&[0, 0, b'o', 0xff, b'k']).unwrap();
    assert_eq!(result.code, KPASSWD_SUCCESS);
    assert_eq!(result.text, "o\u{fffd}k");
    assert!(result.is_success());
    assert_eq!(result.ensure_success(), Ok(()));
}

#[test]
fn change_password_result_rejects_short_data() {
    assert_eq!(ChangePasswordResult::parse(&[0]), Err(Error::ResponseTooShort { actual: 1 }));
}

fn reply(ap_rep: Option<Vec<u8>>, krb_priv: Option<Vec<u8>>, krb_error: Option<Vec<u8>>) -> Reply {
    Reply {
        message_length: 0,
        version: CHANGE_PASSWORD_REPLY_VERSION,
        ap_rep_length: 0,
        ap_rep,
        krb_priv,
        krb_error,
        result: None,
    }
}

#[test]
fn reply_encodes_ap_rep_and_krb_priv() {
    let r = reply(Some(vec![0x6f, 1]), Some(vec![0x75]), None);
    assert!(!r.is_krb_error());
    assert_eq!(r.encode().unwrap(), vec![0, 9, 0, 1, 0, 2, 0x6f, 1, 0x75]);
    assert_eq!(r.marshal().unwrap(), vec![0, 9, 0, 1, 0, 2, 0x6f, 1, 0x75]);
}

#[test]
fn reply_encodes_krb_error_after_zero_length() {
    let r = reply(None, None, Some(vec![0x7e, 0]));
    assert!(r.is_krb_error());
    assert_eq!(r.encode().unwrap(), vec![0, 8, 0, 1, 0, 0, 0x7e, 0]);
}

#[test]
fn reply_encode_rejects_missing_or_extra_sections() {
    assert_eq!(reply(None, Some(vec![1]), None).encode(), Err(Error::MissingApRep));
    assert_eq!(reply(Some(vec![1]), None, None).encode(), Err(Error::MissingKrbPriv));
    assert_eq!(
        reply(Some(vec![1]), None, Some(vec![2])).encode(),
        Err(Error::InvalidErrorReplyPayload)
    );
    assert_eq!(
        reply(None, None, Some(vec![0; 0xfffa])).encode(),
        Err(Error::FrameTooLarge { actual: 0x1_0000 })
    );
}

#[test]
fn reply_result_accessors_follow_result() {
    let mut r = reply(None, None, Some(vec![0x7e, 0]));
    assert_eq!(r.result_code(), None);
    assert_eq!(r.result_text(), None);
    r.result = Some(ChangePasswordResult { code: 5, text: "denied".to_string() });
    assert_eq!(r.result_code(), Some(5));
    assert_eq!(r.result_text(), Some("denied"));
}

#[test]
fn change_password_message_options_recipient() {
    let sender = HostAddress { addr_type: 2, address: vec![192, 0, 2, 1] };
    let o = ChangePasswdMessageOptions::new(UnixTime { seconds: 5, nanos: 0 }, 9, 10, sender.clone());
    assert_eq!(o.recipient_address, None);
    let recipient = HostAddress { addr_type: 2, address: vec![192, 0, 2, 2] };
    let o = o.with_recipient_address(recipient.clone());
    assert_eq!(o.recipient_address, Some(recipient));
    assert_eq!(o.sender_address, sender);
    assert_eq!((o.cusec, o.sequence_number), (9, 10));
}
