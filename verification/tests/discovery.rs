use rskrb5::client::discovery::{
    auto_falls_back, auto_uses_udp_first, configured_endpoints, discover_kdcs,
    discover_kpasswd_servers, kdcs_from_dns, non_empty_kdc_response, srv_endpoints, KdcDiscovery,
    SrvRecord,
};
use rskrb5::client::transport::Error;
use rskrb5::client::{KdcEndpoint, KdcEndpointSource, KdcProtocol};
use rskrb5::config::{self, Config, LibDefaults};

fn conf(text: &str) -> Config {
    Config::parse(text, LibDefaults::new(None, None)).unwrap()
}

fn ep(host: &str, port: u16, source: KdcEndpointSource, protocol: KdcProtocol) -> KdcEndpoint {
    KdcEndpoint { protocol, host: host.to_owned(), port, source }
}

#[test]
fn discovery_prefers_configured_kdcs() {
    let c = conf("[realms]\nR = {\nkdc = a.example\nkdc = b.example:750\nkpasswd_server = k.example\n}\n");
    assert_eq!(
        discover_kdcs(&c, "R", KdcProtocol::Tcp),
        Ok(KdcDiscovery::Configured(vec![
            ep("a.example", 88, KdcEndpointSource::Config, KdcProtocol::Tcp),
            ep("b.example", 750, KdcEndpointSource::Config, KdcProtocol::Tcp),
        ]))
    );
    assert_eq!(
        discover_kpasswd_servers(&c, "R", KdcProtocol::Udp),
        Ok(KdcDiscovery::Configured(vec![ep("k.example", 464, KdcEndpointSource::Config, KdcProtocol::Udp)]))
    );
}

#[test]
fn discovery_falls_back_to_dns_or_errors() {
    let c = conf("[realms]\nR = {\n}\n");
    assert_eq!(discover_kdcs(&c, "R", KdcProtocol::Udp), Ok(KdcDiscovery::Dns));
    assert_eq!(discover_kdcs(&c, "OTHER", KdcProtocol::Udp), Ok(KdcDiscovery::Dns));
    let off = conf("[libdefaults]\ndns_lookup_kdc = false\n[realms]\nR = {\n}\n");
    assert_eq!(
        discover_kdcs(&off, "R", KdcProtocol::Udp),
        Err(Error::NoKdcEndpoints { realm: "R".to_owned(), protocol: KdcProtocol::Udp })
    );
    assert_eq!(
        discover_kdcs(&off, "OTHER", KdcProtocol::Tcp),
        Err(Error::Config(config::Error::NoRealm("OTHER".to_owned())))
    );
    assert_eq!(
        discover_kpasswd_servers(&off, "R", KdcProtocol::Tcp),
        Err(Error::Config(config::Error::NoKpasswdServer("R".to_owned())))
    );
    assert_eq!(
        discover_kpasswd_servers(&off, "OTHER", KdcProtocol::Tcp),
        Err(Error::Config(config::Error::NoRealm("OTHER".to_owned())))
    );
}

#[test]
fn discovery_refuses_a_bad_configured_endpoint() {
    let values = vec!["good".to_owned(), " bad:port ".to_owned(), "also:bad".to_owned()];
    assert_eq!(
        configured_endpoints(&values, KdcProtocol::Udp, 88),
        Err(Error::InvalidKdcEndpoint("bad:port".to_owned()))
    );
    assert_eq!(configured_endpoints(&[], KdcProtocol::Udp, 88), Ok(vec![]));
}

#[test]
fn discovery_orders_srv_records() {
    let rec = |priority: u16, weight: u16, target: &str, port: u16| SrvRecord {
        priority,
        weight,
        target: target.to_owned(),
        port,
    };
    let records = vec![
        rec(10, 5, "c.example.", 88),
        rec(0, 1, "b.example.", 88),
        rec(0, 9, "z.example.", 750),
        rec(0, 1, "a.example", 89),
        rec(0, 1, "a.example..", 88),
        rec(5, 0, ".", 88),
        rec(5, 0, "", 88),
    ];
    let u = KdcProtocol::Udp;
    let s = KdcEndpointSource::DnsSrv;
    assert_eq!(
        srv_endpoints(&records, u),
        vec![
            ep("z.example", 750, s, u),
            ep("a.example", 88, s, u),
            ep("a.example", 89, s, u),
            ep("b.example", 88, s, u),
            ep("c.example", 88, s, u),
        ]
    );
    assert!(srv_endpoints(&[], u).is_empty());
    assert_eq!(
        kdcs_from_dns("R", u, vec![]),
        Err(Error::NoKdcEndpoints { realm: "R".to_owned(), protocol: u })
    );
    assert_eq!(kdcs_from_dns("R", u, vec![ep("h", 88, s, u)]), Ok(vec![ep("h", 88, s, u)]));
}

#[test]
fn discovery_auto_transport_decisions() {
    let c = conf("");
    assert!(auto_uses_udp_first(&c, 1465));
    assert!(!auto_uses_udp_first(&c, 1466));
    let one = conf("[libdefaults]\nudp_preference_limit = 1\n");
    assert!(!auto_uses_udp_first(&one, 0));
    let neg = conf("[libdefaults]\nudp_preference_limit = -1\n");
    assert!(!auto_uses_udp_first(&neg, 0));
    assert!(auto_falls_back(KdcProtocol::Tcp, true, None));
    assert!(auto_falls_back(KdcProtocol::Udp, false, Some(52)));
    assert!(!auto_falls_back(KdcProtocol::Tcp, false, Some(52)));
    assert!(!auto_falls_back(KdcProtocol::Udp, false, Some(6)));
    assert!(!auto_falls_back(KdcProtocol::Udp, false, None));
    assert_eq!(non_empty_kdc_response(vec![]), Err(Error::EmptyKdcResponse));
    assert_eq!(non_empty_kdc_response(vec![1]), Ok(vec![1]));
}

#[test]
fn endpoint_authority_parses_back() {
    for (host, port) in [("kdc.example.com", 88u16), ("2001:db8::1", 750), ("10.0.0.1", 0), ("::1", 65535)] {
        let e = KdcEndpoint {
            protocol: KdcProtocol::Tcp,
            host: host.to_owned(),
            port,
            source: KdcEndpointSource::Config,
        };
        let back = KdcEndpoint::configured_with_default_port(KdcProtocol::Tcp, &e.authority(), 1).unwrap();
        assert_eq!(back, e);
    }
}
