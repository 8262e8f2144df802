use rskrb5::asn1::{der_int, tlv};
use rskrb5::client::etype_info::{decode_method_data, kdc_error_key_info, preauth_key_info_from_method_data};
use rskrb5::client::request::PaData;
use rskrb5::client::{Error, PreauthKeyInfo};

fn etype_info2() -> Vec<u8> {
    let mut v = vec![0x30, 0x1e];
    // etype 18, salt "R.Cu"
    v.extend_from_slice(&[0x30, 0x0d, 0xa0, 0x03, 0x02, 0x01, 0x12, 0xa1, 0x06, 0x1b, 0x04, b'R', b'.', b'C', b'u']);
    // etype 23, s2kparams 00001000
    v.extend_from_slice(&[0x30, 0x0d, 0xa0, 0x03, 0x02, 0x01, 0x17, 0xa2, 0x06, 0x04, 0x04, 0x00, 0x00, 0x10, 0x00]);
    v
}

fn etype_info() -> Vec<u8> {
    // etype 3, salt "ab" as an OCTET STRING
    vec![0x30, 0x0d, 0x30, 0x0b, 0xa0, 0x03, 0x02, 0x01, 0x03, 0xa1, 0x04, 0x04, 0x02, b'a', b'b']
}

#[test]
fn method_data_hints_come_info2_first() {
    let data = vec![
        PaData { padata_type: 11, padata_value: etype_info() },
        PaData { padata_type: 2, padata_value: vec![0xff] },
        PaData { padata_type: 19, padata_value: etype_info2() },
    ];
    let hints = preauth_key_info_from_method_data(&data).unwrap();
    assert_eq!(
        hints,
        vec![
            PreauthKeyInfo { etype: 18, salt: Some("R.Cu".to_owned()), s2kparams: None },
            PreauthKeyInfo { etype: 23, salt: None, s2kparams: Some(vec![0, 0, 0x10, 0]) },
            PreauthKeyInfo { etype: 3, salt: Some("ab".to_owned()), s2kparams: None },
        ]
    );
}

#[test]
fn method_data_without_hints_and_with_bad_values() {
    assert_eq!(preauth_key_info_from_method_data(&[]).unwrap(), Vec::new());
    let other = vec![PaData { padata_type: 2, padata_value: vec![1, 2, 3] }];
    assert_eq!(preauth_key_info_from_method_data(&other).unwrap(), Vec::new());
    let bad = vec![PaData { padata_type: 19, padata_value: vec![0x30, 0x05] }];
    assert!(matches!(preauth_key_info_from_method_data(&bad), Err(Error::InvalidReply)));
    // a negative INTEGER etype reads; a missing etype does not
    let neg = vec![PaData {
        padata_type: 19,
        padata_value: vec![0x30, 0x07, 0x30, 0x05, 0xa0, 0x03, 0x02, 0x01, 0xff],
    }];
    assert_eq!(
        preauth_key_info_from_method_data(&neg).unwrap(),
        vec![PreauthKeyInfo { etype: -1, salt: None, s2kparams: None }]
    );
    let no_etype = vec![PaData { padata_type: 11, padata_value: vec![0x30, 0x02, 0x30, 0x00] }];
    assert!(matches!(preauth_key_info_from_method_data(&no_etype), Err(Error::InvalidReply)));
}

fn field(tag: u8, content: Vec<u8>) -> Vec<u8> {
    tlv(tag, &content)
}

fn pa_data(ty: i64, value: &[u8]) -> Vec<u8> {
    let mut c = field(0xa1, der_int(ty));
    c.extend(field(0xa2, tlv(0x04, value)));
    tlv(0x30, &c)
}

fn krb_error(code: i64, e_data: Option<Vec<u8>>) -> Vec<u8> {
    let mut c = field(0xa0, der_int(5));
    c.extend(field(0xa1, der_int(30)));
    c.extend(field(0xa6, der_int(code)));
    if let Some(e) = e_data {
        c.extend(field(0xac, tlv(0x04, &e)));
    }
    tlv(0x7e, &tlv(0x30, &c))
}

#[test]
fn method_data_decodes_in_order() {
    let mut seq = pa_data(19, &etype_info2());
    seq.extend(pa_data(2, &[]));
    let md = tlv(0x30, &seq);
    let decoded = decode_method_data(&md).unwrap();
    assert_eq!(
        decoded,
        vec![
            PaData { padata_type: 19, padata_value: etype_info2() },
            PaData { padata_type: 2, padata_value: Vec::new() },
        ]
    );
    assert!(matches!(decode_method_data(&md[..md.len() - 1]), Err(Error::InvalidReply)));
    assert_eq!(decode_method_data(&[0x30, 0x00]).unwrap(), Vec::new());
}

#[test]
fn kdc_error_preauth_required_carries_hints() {
    let md = tlv(0x30, &pa_data(19, &etype_info2()));
    let (code, hints) = kdc_error_key_info(&krb_error(25, Some(md))).unwrap();
    assert_eq!(code, 25);
    assert_eq!(hints.len(), 2);
    assert_eq!(hints[0], PreauthKeyInfo { etype: 18, salt: Some("R.Cu".to_owned()), s2kparams: None });
    // no e-data: no hints
    assert_eq!(kdc_error_key_info(&krb_error(25, None)).unwrap(), (25, Vec::new()));
    // another error: its e-data is not read as METHOD-DATA
    assert_eq!(kdc_error_key_info(&krb_error(6, Some(vec![0xff]))).unwrap(), (6, Vec::new()));
    // bad METHOD-DATA under PREAUTH_REQUIRED
    assert!(matches!(kdc_error_key_info(&krb_error(25, Some(vec![0xff]))), Err(Error::InvalidReply)));
    // not a KRB-ERROR
    assert!(matches!(kdc_error_key_info(&[0x30, 0x00]), Err(Error::InvalidReply)));
}
