use rskrb5::config::{parse_boolean, parse_duration, parse_supported_enctype_ids, Error};

#[test]
fn config_parse_boolean_values() {
    for v in ["1", "t", "true", "y", "yes", " TRUE ", "Yes"] {
        assert_eq!(parse_boolean(v), Ok(true), "{v}");
    }
    for v in ["0", "f", "false", "n", "no", "\tNo\n", "FALSE"] {
        assert_eq!(parse_boolean(v), Ok(false), "{v}");
    }
    assert_eq!(parse_boolean("maybe"), Err(Error::InvalidBoolean("maybe".to_owned())));
    assert_eq!(parse_boolean(""), Err(Error::InvalidBoolean(String::new())));
}

#[test]
fn config_enctype_names_to_ids() {
    let names: Vec<String> = [
        "aes256-cts-hmac-sha1-96",
        "AES128-CTS",
        "aes128-sha2",
        "aes256-sha2",
        "des3-cbc-sha1-kd",
        "rc4-hmac",
        "des-cbc-crc",
        "camellia256-cts-cmac",
        "arcfour-hmac-md5",
    ]
    .iter()
    .map(|s| s.to_string())
    .collect();
    assert_eq!(parse_supported_enctype_ids(&names, false), vec![18, 17, 19, 20, 16, 23, 23]);
    assert_eq!(parse_supported_enctype_ids(&names, true), vec![18, 17, 19, 20, 16, 23, 23]);
    let weak: Vec<String> = vec!["arcfour-hmac-exp".to_owned(), "aes128-sha1".to_owned()];
    assert_eq!(parse_supported_enctype_ids(&weak, false), vec![17]);
    assert!(parse_supported_enctype_ids(&[], false).is_empty());
}

#[test]
fn config_durations_in_seconds() {
    assert_eq!(parse_duration("100"), Ok(100));
    assert_eq!(parse_duration("+7"), Ok(7));
    assert_eq!(parse_duration("12h30m15s"), Ok(12 * 3600 + 30 * 60 + 15));
    assert_eq!(parse_duration("10m"), Ok(600));
    assert_eq!(parse_duration("1h1h"), Ok(7200));
    assert_eq!(parse_duration("1d"), Ok(86400));
    assert_eq!(parse_duration("1d12h"), Ok(86400 + 12 * 3600));
    assert_eq!(parse_duration(" 1 d 2 h "), Ok(86400 + 7200));
    assert_eq!(parse_duration("1:30"), Ok(5400));
    assert_eq!(parse_duration("1:30:15"), Ok(5415));
    assert_eq!(parse_duration("0:0:0"), Ok(0));
    assert_eq!(parse_duration("18446744073709551615s"), Ok(u64::MAX));
    assert_eq!(parse_duration("18446744073709551615"), Ok(u64::MAX));
}

#[test]
fn config_invalid_durations() {
    for v in ["", "   ", "0", "x", "1x", "1h2", "h", "1:2:3:4", "a:b", "1:", "d", "xd", "1d5"] {
        assert_eq!(parse_duration(v), Err(Error::InvalidDuration(v.to_owned())), "{v:?}");
    }
    // a unit overflow without days falls back to the other forms, which refuse it
    assert_eq!(
        parse_duration("18446744073709551615h"),
        Err(Error::InvalidDuration("18446744073709551615h".to_owned()))
    );
}

#[test]
fn config_duration_overflows() {
    assert_eq!(parse_duration("213503982334601d"), Ok(213503982334601 * 86400));
    for v in ["213503982334602d", "1d18446744073709551615s", "6000000000000000:0", "1d18446744073709551615h"] {
        assert_eq!(parse_duration(v), Err(Error::DurationOverflow(v.to_owned())), "{v:?}");
    }
}
