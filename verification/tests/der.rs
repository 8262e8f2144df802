use rskrb5::der::trim_zero_padded_der;

#[test]
fn leaves_exact_der_unchanged() {
    let bytes = [0x30, 0x03, 0x04, 0x01, 0x00];
    assert_eq!(trim_zero_padded_der(&bytes), bytes);
}

#[test]
fn trims_only_zero_bytes_after_top_level_der_value() {
    let bytes = [0x30, 0x03, 0x04, 0x01, 0x00, 0x00, 0x00];
    assert_eq!(trim_zero_padded_der(&bytes), [0x30, 0x03, 0x04, 0x01, 0x00]);
}

#[test]
fn leaves_nonzero_trailing_bytes_for_strict_decoder_errors() {
    let bytes = [0x30, 0x03, 0x04, 0x01, 0x00, 0x01];
    assert_eq!(trim_zero_padded_der(&bytes), bytes);
}

#[test]
fn leaves_malformed_der_unchanged() {
    let bytes = [0x30, 0x81];
    assert_eq!(trim_zero_padded_der(&bytes), bytes);
}

#[test]
fn der_long_form_length_is_followed() {
    let mut bytes = vec![0x04, 0x81, 0x80];
    bytes.extend(std::iter::repeat(7u8).take(0x80));
    bytes.extend([0, 0, 0]);
    assert_eq!(trim_zero_padded_der(&bytes).len(), 0x83);
}
