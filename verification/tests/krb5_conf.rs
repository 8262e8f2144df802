use rskrb5::config::{Config, Error, LibDefaults, Realm};

const SAMPLE: &str = "\
# leading comment
ignored = before any section
[libdefaults]
  default_realm = EXAMPLE.COM   # trailing comment
  dns_lookup_kdc = false
  ticket_lifetime = 10h
  default_tkt_enctypes = aes256-cts-hmac-sha1-96 rc4-hmac
  kdc_default_options = 0x40000010
  preferred_preauth_types = 17, 16 ,15
  extra_addresses = 10.0.0.1, ,192.168.1.2
  Allow_Weak_Crypto = true ; another comment

[realms]
  EXAMPLE.COM = {
    kdc = kdc1.example.com
    kdc = kdc2.example.com:750*
    kdc = kdc3.example.com
    admin_server = kadmin.example.com:749
    default_domain = example.com
  }
  OTHER.ORG = {
    kdc = [::1]:88
    kpasswd_server = kp.other.org
    auth_to_local = {
       RULE:[1:$1]
    }
  }

[appdefaults]
  this line = is skipped
  and this one too

[ Domain_Realm ]
  .example.com = EXAMPLE.COM
  Host.Other.Org = OTHER.ORG
  .example.com = EXAMPLE2.COM
";

fn strings(v: &[&str]) -> Vec<String> {
    v.iter().map(|s| s.to_string()).collect()
}

fn defaults() -> LibDefaults {
    LibDefaults::new(Some("1000"), Some("/home/u"))
}

#[test]
fn krb5_conf_libdefaults_defaults() {
    let d = defaults();
    assert_eq!(d.default_client_keytab_name, "/usr/local/var/krb5/user/1000/client.keytab");
    assert_eq!(d.k5login_directory, "/home/u");
    assert_eq!(d.default_keytab_name, "/etc/krb5.keytab");
    assert_eq!(d.clockskew, 300);
    assert_eq!(d.ticket_lifetime, 86400);
    assert_eq!(d.renew_lifetime, 0);
    assert_eq!(d.kdc_default_options, 0x10);
    assert_eq!(d.udp_preference_limit, 1465);
    assert_eq!(d.realm_try_domains, -1);
    assert_eq!(d.preferred_preauth_types, vec![17, 16, 15, 14]);
    assert_eq!(d.default_tkt_enctypes.len(), 9);
    assert_eq!(d.default_tkt_enctype_ids, vec![18, 17, 23]);
    assert_eq!(d.permitted_enctype_ids, vec![18, 17, 23]);
    assert!(d.no_addresses && d.rdns && d.dns_lookup_kdc && !d.allow_weak_crypto);
    let e = LibDefaults::new(None, None);
    assert_eq!(e.default_client_keytab_name, "/usr/local/var/krb5/user/0/client.keytab");
    assert_eq!(e.k5login_directory, "");
}

#[test]
fn krb5_conf_parses_all_sections() {
    let c = Config::parse(SAMPLE, defaults()).unwrap();
    let d = &c.libdefaults;
    assert_eq!(d.default_realm, "EXAMPLE.COM");
    assert!(!d.dns_lookup_kdc);
    assert_eq!(d.ticket_lifetime, 36000);
    assert_eq!(d.default_tkt_enctypes, strings(&["aes256-cts-hmac-sha1-96", "rc4-hmac"]));
    assert_eq!(d.default_tkt_enctype_ids, vec![18, 23]);
    assert_eq!(d.default_tgs_enctype_ids, vec![18, 17, 23]);
    assert_eq!(d.kdc_default_options, 0x4000_0010);
    assert_eq!(d.preferred_preauth_types, vec![17, 16, 15]);
    assert_eq!(d.extra_addresses, strings(&["10.0.0.1", "192.168.1.2"]));
    assert!(d.allow_weak_crypto);

    assert_eq!(
        c.realms,
        vec![
            Realm {
                realm: "EXAMPLE.COM".to_owned(),
                admin_server: strings(&["kadmin.example.com:749"]),
                default_domain: "example.com".to_owned(),
                kdc: strings(&["kdc1.example.com:88", "kdc2.example.com:750"]),
                kpasswd_server: strings(&["kadmin.example.com:464"]),
                master_kdc: vec![],
            },
            Realm {
                realm: "OTHER.ORG".to_owned(),
                admin_server: vec![],
                default_domain: String::new(),
                kdc: strings(&["[::1]:88"]),
                kpasswd_server: strings(&["kp.other.org"]),
                master_kdc: vec![],
            },
        ]
    );
    assert_eq!(
        c.domain_realm,
        vec![
            (".example.com".to_owned(), "EXAMPLE2.COM".to_owned()),
            ("host.other.org".to_owned(), "OTHER.ORG".to_owned()),
        ]
    );
}

#[test]
fn krb5_conf_lookups() {
    let c = Config::parse(SAMPLE, defaults()).unwrap();
    assert_eq!(c.realm("OTHER.ORG").unwrap().kpasswd_server, strings(&["kp.other.org"]));
    assert!(c.realm("other.org").is_none());
    assert_eq!(c.resolve_realm("www.example.com"), Some("EXAMPLE2.COM"));
    assert_eq!(c.resolve_realm("a.b.example.com."), Some("EXAMPLE2.COM"));
    assert_eq!(c.resolve_realm("host.other.org."), Some("OTHER.ORG"));
    assert_eq!(c.resolve_realm("Host.Other.Org"), None);
    assert_eq!(c.resolve_realm("example.com"), None);
    assert_eq!(c.resolve_realm(""), None);
    assert_eq!(
        c.configured_kdcs("EXAMPLE.COM").unwrap(),
        &strings(&["kdc1.example.com:88", "kdc2.example.com:750"])[..]
    );
    assert_eq!(c.configured_kdcs("NOPE"), Err(Error::NoRealm("NOPE".to_owned())));
    assert_eq!(c.configured_kpasswd_servers("EXAMPLE.COM").unwrap(), &strings(&["kadmin.example.com:464"])[..]);
    let empty = Config::parse("[realms]\nEMPTY = {\n}\n", defaults()).unwrap();
    assert_eq!(empty.configured_kdcs("EMPTY"), Err(Error::NoKdc("EMPTY".to_owned())));
    assert_eq!(
        empty.configured_kpasswd_servers("EMPTY"),
        Err(Error::NoKpasswdServer("EMPTY".to_owned()))
    );
}

#[test]
fn krb5_conf_empty_and_unknown_input() {
    let c = Config::parse("", defaults()).unwrap();
    assert_eq!(c, Config::new(defaults()));
    let c = Config::parse("[other]\nnot an assignment\n", defaults()).unwrap();
    assert_eq!(c, Config::new(defaults()));
    let c = Config::parse("[realms]\nR = {}\n", defaults()).unwrap();
    assert_eq!(c.realms.len(), 1);
    assert_eq!(c.realms[0].realm, "R");
}

#[test]
fn krb5_conf_line_errors() {
    assert_eq!(
        Config::parse("[libdefaults]\n\nnoequals\n", defaults()),
        Err(Error::InvalidLine { section: "libdefaults", line: 3, text: "noequals".to_owned() })
    );
    assert_eq!(
        Config::parse("[domain_realm]\n x \n", defaults()),
        Err(Error::InvalidLine { section: "domain_realm", line: 2, text: "x".to_owned() })
    );
    assert_eq!(
        Config::parse("[libdefaults]\nv4_instance_convert = x\n", defaults()),
        Err(Error::UnsupportedDirective("v4 configurations are not supported".to_owned()))
    );
    assert_eq!(
        Config::parse("[libdefaults]\nccache_type = abc\n", defaults()),
        Err(Error::InvalidInteger { line: 2, key: "ccache_type".to_owned(), value: "abc".to_owned() })
    );
    assert_eq!(
        Config::parse("[libdefaults]\nkdc_default_options = 0x0xZZ\n", defaults()),
        Err(Error::InvalidInteger { line: 2, key: "kdc_default_options".to_owned(), value: "ZZ".to_owned() })
    );
    assert_eq!(
        Config::parse("[libdefaults]\npreferred_preauth_types = 1,x2\n", defaults()),
        Err(Error::InvalidInteger { line: 2, key: "preferred_preauth_types".to_owned(), value: "x2".to_owned() })
    );
    assert_eq!(
        Config::parse("[libdefaults]\nforwardable = maybe\n", defaults()),
        Err(Error::InvalidBoolean("maybe".to_owned()))
    );
    assert_eq!(
        Config::parse("[libdefaults]\nclockskew = 1x\n", defaults()),
        Err(Error::InvalidDuration("1x".to_owned()))
    );
    assert_eq!(
        Config::parse("[libdefaults]\nclockskew = 213503982334602d\n", defaults()),
        Err(Error::DurationOverflow("213503982334602d".to_owned()))
    );
}

#[test]
fn krb5_conf_realms_errors() {
    assert_eq!(
        Config::parse("[realms]\nR = {\nkdc = a\n", defaults()),
        Err(Error::InvalidRealmsSection("realm block for R is not closed".to_owned()))
    );
    assert_eq!(
        Config::parse("[realms]\nR = x\n", defaults()),
        Err(Error::InvalidRealmsSection("realm block for R does not start with '{'".to_owned()))
    );
    assert_eq!(
        Config::parse("[realms]\nR = {\n}}\n", defaults()),
        Err(Error::InvalidRealmsSection("unpaired closing brace".to_owned()))
    );
    // balanced braces on the header line close the block at once
    let c = Config::parse("[realms]\nR = }{\n", defaults()).unwrap();
    assert_eq!(c.realms[0].realm, "R");
    assert_eq!(
        Config::parse("[realms]\nR = {\nv4_realm = x\n}\n", defaults()),
        Err(Error::UnsupportedDirective("v4 configurations are not supported".to_owned()))
    );
}

#[test]
fn krb5_conf_later_sections_and_final_marks() {
    let text = "[realms]\nA = {\nkdc = h1:1\n}\n[realms]\nB = {\nmaster_kdc = m1 *\nmaster_kdc = m2\nkdc = h2*\n}\n[libdefaults]\ndefault_realm = A\n[libdefaults]\nrenew_lifetime = 1d\n";
    let c = Config::parse(text, defaults()).unwrap();
    assert_eq!(c.realms.len(), 1);
    assert_eq!(c.realms[0].realm, "B");
    assert_eq!(c.realms[0].master_kdc, strings(&["m1"]));
    assert_eq!(c.realms[0].kdc, strings(&["h2:88"]));
    assert_eq!(c.libdefaults.default_realm, "A");
    assert_eq!(c.libdefaults.renew_lifetime, 86400);
}
