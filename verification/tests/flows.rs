use rskrb5::client::flows::{
    cached_ticket_use, password_change_outcome, password_change_plan, same_principal, tgt_source,
    CachedTicketUse, ChangepwTicketSource, CredentialKind, TgtSource,
};
use rskrb5::client::{AsRepSession, Principal, UnixTime};
use rskrb5::kadmin::{ChangePasswordResult, Error as KadminError};
use rskrb5::keytab;

fn t(seconds: i64) -> UnixTime {
    UnixTime { seconds, nanos: 0 }
}

fn ticket(end: i64, renew: Option<i64>) -> AsRepSession {
    AsRepSession {
        client: Principal::user("R".to_owned(), "u".to_owned()),
        service: Principal::new("R".to_owned(), 2, vec!["HTTP".to_owned(), "web".to_owned()]),
        session_key: keytab::EncryptionKey { etype: 18, value: vec![1; 32] },
        ticket: vec![1, 2, 3],
        ticket_flags: [0x40, 0, 0, 0],
        auth_time: t(100),
        start_time: t(100),
        end_time: t(end),
        renew_till: renew.map(t),
        key_expiration: None,
    }
}

#[test]
fn cached_service_ticket_is_used_renewed_or_replaced() {
    assert_eq!(cached_ticket_use(None, t(200)), CachedTicketUse::Fetch);
    let valid = ticket(700, None);
    assert_eq!(cached_ticket_use(Some(&valid), t(200)), CachedTicketUse::UseCached);
    assert_eq!(cached_ticket_use(Some(&valid), t(700)), CachedTicketUse::Fetch);
    let renewable = ticket(700, Some(1000));
    assert_eq!(cached_ticket_use(Some(&renewable), t(800)), CachedTicketUse::Renew);
    assert_eq!(cached_ticket_use(Some(&renewable), t(1000)), CachedTicketUse::Fetch);
}

#[test]
fn tgt_source_for_service_realm() {
    let r = "R".to_owned();
    let other = "OTHER".to_owned();
    assert_eq!(tgt_source(true, &other, &r), TgtSource::CachedForRealm);
    assert_eq!(tgt_source(false, &other, &r), TgtSource::RenewForRealm);
    assert_eq!(tgt_source(false, &r, &r), TgtSource::EnsureClientTgt);
}

#[test]
fn password_change_plan_for_self_and_target() {
    let client = Principal::user("R".to_owned(), "alice".to_owned());
    let own = password_change_plan(&client, &client, CredentialKind::Password);
    assert_eq!(own.service.realm, "R");
    assert_eq!(own.service.name_type, 1);
    assert_eq!(own.service.components, vec!["kadmin".to_owned(), "changepw".to_owned()]);
    assert_eq!(own.ticket_source, ChangepwTicketSource::LoginWithPassword);
    assert!(!own.for_target);
    assert!(own.update_password_credential);

    let target = Principal::user("OTHER".to_owned(), "bob".to_owned());
    let admin = password_change_plan(&client, &target, CredentialKind::Keytab);
    assert_eq!(admin.service.realm, "OTHER");
    assert_eq!(admin.ticket_source, ChangepwTicketSource::LoginWithKeytab);
    assert!(admin.for_target);
    assert!(!admin.update_password_credential);

    let cached = password_change_plan(&client, &client, CredentialKind::CacheOnly);
    assert_eq!(cached.ticket_source, ChangepwTicketSource::ServiceTicket);
    assert!(!cached.for_target);
    assert!(!cached.update_password_credential);

    // Same name under another name type is another principal.
    let typed = Principal::new("R".to_owned(), 3, vec!["alice".to_owned()]);
    assert!(!same_principal(&typed, &client));
    assert!(password_change_plan(&client, &typed, CredentialKind::Password).for_target);
}

#[test]
fn password_change_outcome_success_and_failure() {
    let client = Principal::user("R".to_owned(), "alice".to_owned());
    let plan = password_change_plan(&client, &client, CredentialKind::Password);
    let ok = ChangePasswordResult { code: 0, text: "done".to_owned() };
    assert_eq!(password_change_outcome(&plan, &ok), Ok(true));
    let soft = ChangePasswordResult { code: 4, text: "too short".to_owned() };
    match password_change_outcome(&plan, &soft) {
        Err(KadminError::PasswordChangeFailed { code, text }) => {
            assert_eq!(code, 4);
            assert_eq!(text, "too short");
        }
        other => panic!("unexpected {:?}", other),
    }
}
