use rskrb5::client::principal::Principal;
use rskrb5::client::Error;

fn invalid(r: Result<Principal, Error>) -> (String, &'static str) {
    match r {
        Err(Error::InvalidPrincipalName { value, reason }) => (value, reason),
        other => panic!("expected an invalid principal name, got {:?}", other),
    }
}

#[test]
fn principal_parse_user_plain() {
    let p = Principal::parse_user("alice@EXAMPLE.COM").unwrap();
    assert_eq!(p.realm, "EXAMPLE.COM");
    assert_eq!(p.components, vec!["alice".to_owned()]);
    assert_eq!(p.name_type, 1);
    assert_eq!(p, Principal::user("EXAMPLE.COM".to_owned(), "alice".to_owned()));
}

#[test]
fn principal_parse_user_with_escapes() {
    let p = Principal::parse_user(r"user\@name@REALM").unwrap();
    assert_eq!(p.components, vec!["user@name".to_owned()]);
    assert_eq!(p.realm, "REALM");
    let q = Principal::parse_user(r"a\/b@R\@S").unwrap();
    assert_eq!(q.components, vec!["a/b".to_owned()]);
    assert_eq!(q.realm, "R@S");
}

#[test]
fn principal_parse_user_errors() {
    assert_eq!(invalid(Principal::parse_user("")), ("".to_owned(), "principal name is empty"));
    assert_eq!(
        invalid(Principal::parse_user("alice")),
        ("alice".to_owned(), "principal realm separator is missing")
    );
    assert_eq!(
        invalid(Principal::parse_user(r"alice\@R")),
        (r"alice\@R".to_owned(), "principal realm separator is missing")
    );
    assert_eq!(
        invalid(Principal::parse_user("a@b@c")),
        ("a@b@c".to_owned(), "principal contains more than one unescaped realm separator")
    );
    assert_eq!(
        invalid(Principal::parse_user("@R")),
        ("@R".to_owned(), "principal name component is empty")
    );
    assert_eq!(invalid(Principal::parse_user("a@")), ("a@".to_owned(), "principal realm is empty"));
    assert_eq!(
        invalid(Principal::parse_user(r"a@R\")),
        (r"a@R\".to_owned(), "principal contains a trailing escape character")
    );
    assert_eq!(
        invalid(Principal::parse_user("a/b@R")),
        ("a/b@R".to_owned(), "user principal must contain exactly one name component")
    );
    assert_eq!(
        invalid(Principal::parse_user("a/@R")),
        ("a/@R".to_owned(), "principal contains an empty name component")
    );
}

#[test]
fn principal_parse_service() {
    let p = Principal::parse_service("HTTP/web.example.com@EXAMPLE.COM").unwrap();
    assert_eq!(p.name_type, 2);
    assert_eq!(p.components, vec!["HTTP".to_owned(), "web.example.com".to_owned()]);
    assert_eq!(p.realm, "EXAMPLE.COM");
    assert_eq!(p.name(), "HTTP/web.example.com");
    assert_eq!(
        invalid(Principal::parse_service("HTTP@R")),
        ("HTTP@R".to_owned(), "service principal must contain service and host components")
    );
    assert_eq!(
        invalid(Principal::parse_service("a/b/c@R")),
        ("a/b/c@R".to_owned(), "service principal must contain service and host components")
    );
}

#[test]
fn principal_host_based_services() {
    let p = Principal::host_based_service("HTTP", "web").unwrap();
    assert_eq!(p.realm, "");
    assert_eq!(p.name_type, 2);
    assert_eq!(p.components, vec!["HTTP".to_owned(), "web".to_owned()]);
    let q = Principal::host_based_service_in_realm("ldap", "dc1", "AD.EXAMPLE").unwrap();
    assert_eq!(q.realm, "AD.EXAMPLE");
    assert_eq!(q.components, vec!["ldap".to_owned(), "dc1".to_owned()]);
    assert_eq!(
        invalid(Principal::host_based_service("", "web")),
        ("".to_owned(), "host-based service name is empty")
    );
    assert_eq!(
        invalid(Principal::host_based_service("HTTP", "")),
        ("".to_owned(), "host-based service host is empty")
    );
    assert_eq!(
        invalid(Principal::host_based_service_in_realm("HTTP", "web", "")),
        ("".to_owned(), "host-based service realm is empty")
    );
}

#[test]
fn principal_tgt_service_and_new() {
    let t = Principal::tgt_service("EXAMPLE.COM".to_owned());
    assert_eq!(t.realm, "EXAMPLE.COM");
    assert_eq!(t.name_type, 2);
    assert_eq!(t.components, vec!["krbtgt".to_owned(), "EXAMPLE.COM".to_owned()]);
    assert_eq!(t.name(), "krbtgt/EXAMPLE.COM");
    let n = Principal::new("R".to_owned(), 10, vec!["x".to_owned(), "y".to_owned()]);
    assert_eq!(n.name_type, 10);
    assert_eq!(n.name(), "x/y");
}
