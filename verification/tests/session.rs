use bring_cli::bring::{AuthError, LoginInfo};
use bring_cli::database::Database;
use bring_cli::users::{Storage, UserManagement, AUTH_TOKEN, EXPIRATION_TIMESTAMP, LIST_UUID,
    USERNAME};

const NOW: i64 = 1_700_000_000;

fn manager() -> UserManagement<Database> {
    UserManagement::new(Database::new())
}

fn populated(expiration: &str) -> UserManagement<Database> {
    let mut um = manager();
    um.storage.insert(AUTH_TOKEN.to_string(), "abc".to_string());
    um.storage.insert(LIST_UUID.to_string(), "L1".to_string());
    um.storage
        .insert(EXPIRATION_TIMESTAMP.to_string(), expiration.to_string());
    um.storage.insert(USERNAME.to_string(), "user@example.com".to_string());
    um
}

fn ok_login(expiration_timestamp: i64) -> Result<LoginInfo, AuthError> {
    Ok(LoginInfo {
        auth_token: "abc".to_string(),
        list_uuid: "L1".to_string(),
        expiration_timestamp,
    })
}

#[test]
fn fresh_login_scenario() {
    let mut um = manager();
    // empty store: no cached session, no pre-filled username
    assert!(um.stored_session(NOW).is_none());
    assert!(um.stored_username().is_none());
    // the collaborator answers with a token valid for an hour
    let session = match um.complete_login("user@example.com", ok_login(NOW + 3600)) {
        Ok(s) => s,
        Err(_) => panic!("login outcome was successful"),
    };
    assert_eq!(session.auth_token, "Bearer abc");
    assert_eq!(session.list_uuid, "L1");
    assert_eq!(um.storage.get(AUTH_TOKEN), Some(&"abc".to_string()));
    assert_eq!(um.storage.get(LIST_UUID), Some(&"L1".to_string()));
    assert_eq!(um.storage.get(USERNAME), Some(&"user@example.com".to_string()));
    assert_eq!(
        um.storage.get(EXPIRATION_TIMESTAMP),
        Some(&format!("{}", NOW + 3600))
    );
}

#[test]
fn valid_cached_session_resolves_without_login() {
    let um = populated(&format!("{}", NOW + 3600));
    let session = match um.stored_session(NOW) {
        Some(s) => s,
        None => panic!("cached session is fresh"),
    };
    assert_eq!(session.auth_token, "Bearer abc");
    assert_eq!(session.list_uuid, "L1");
    assert_eq!(um.stored_username(), Some("user@example.com".to_string()));
}

#[test]
fn expired_session_forces_login_and_updates_store() {
    let mut um = populated(&format!("{}", NOW - 3600));
    assert!(um.stored_session(NOW).is_none());
    let session = match um.complete_login("user@example.com", ok_login(NOW + 3600)) {
        Ok(s) => s,
        Err(_) => panic!("login outcome was successful"),
    };
    assert_eq!(session.auth_token, "Bearer abc");
    assert_eq!(
        um.storage.get(EXPIRATION_TIMESTAMP),
        Some(&format!("{}", NOW + 3600))
    );
    assert!(um.stored_session(NOW).is_some());
}

#[test]
fn freshness_boundary_is_conservative() {
    // an instant exactly equal to now counts as expired
    assert!(populated(&format!("{}", NOW)).stored_session(NOW).is_none());
    assert!(populated(&format!("{}", NOW - 1)).stored_session(NOW).is_none());
    assert!(populated(&format!("{}", NOW + 1)).stored_session(NOW).is_some());
}

#[test]
fn unparsable_expiration_forces_refresh_without_crash() {
    let um = populated("not-a-number");
    assert!(um.stored_session(NOW).is_none());
}

#[test]
fn missing_expiration_forces_refresh() {
    let mut um = populated("0");
    um.storage.remove(EXPIRATION_TIMESTAMP);
    assert!(um.stored_session(NOW).is_none());
}

#[test]
fn empty_token_counts_as_absent() {
    let mut um = populated(&format!("{}", NOW + 3600));
    um.storage.insert(AUTH_TOKEN.to_string(), "".to_string());
    assert!(um.stored_session(NOW).is_none());
}

#[test]
fn empty_list_id_counts_as_absent() {
    let mut um = populated(&format!("{}", NOW + 3600));
    um.storage.insert(LIST_UUID.to_string(), "".to_string());
    assert!(um.stored_session(NOW).is_none());
}

#[test]
fn failing_login_changes_no_reserved_key() {
    let mut um = populated(&format!("{}", NOW - 5));
    let before_token = um.storage.get(AUTH_TOKEN).cloned();
    let before_uuid = um.storage.get(LIST_UUID).cloned();
    let before_user = um.storage.get(USERNAME).cloned();
    let before_exp = um.storage.get(EXPIRATION_TIMESTAMP).cloned();
    let outcome: Result<LoginInfo, AuthError> = Err(AuthError {
        message: "could not login".to_string(),
    });
    let r = um.complete_login("user@example.com", outcome);
    let err = match r {
        Ok(_) => panic!("failing collaborator surfaces its error"),
        Err(e) => e,
    };
    assert_eq!(err.message, "could not login");
    assert_eq!(um.storage.get(AUTH_TOKEN).cloned(), before_token);
    assert_eq!(um.storage.get(LIST_UUID).cloned(), before_uuid);
    assert_eq!(um.storage.get(USERNAME).cloned(), before_user);
    assert_eq!(um.storage.get(EXPIRATION_TIMESTAMP).cloned(), before_exp);
}

#[test]
fn failing_login_on_empty_store_writes_nothing() {
    let mut um = manager();
    let outcome: Result<LoginInfo, AuthError> = Err(AuthError {
        message: "transport failure".to_string(),
    });
    assert!(um.complete_login("someone", outcome).is_err());
    assert!(um.storage.get(AUTH_TOKEN).is_none());
    assert!(um.storage.get(LIST_UUID).is_none());
    assert!(um.storage.get(USERNAME).is_none());
    assert!(um.storage.get(EXPIRATION_TIMESTAMP).is_none());
}

#[test]
fn logout_is_idempotent_and_keeps_other_keys() {
    let mut um = populated(&format!("{}", NOW + 3600));
    um.storage.insert("milk".to_string(), "2l".to_string());
    um.logout();
    assert!(um.storage.get(AUTH_TOKEN).is_none());
    assert!(um.storage.get(LIST_UUID).is_none());
    assert!(um.storage.get(USERNAME).is_none());
    assert!(um.storage.get(EXPIRATION_TIMESTAMP).is_none());
    // a second logout is silent and changes nothing
    um.logout();
    assert!(um.storage.get(AUTH_TOKEN).is_none());
    assert_eq!(um.storage.get("milk"), Some(&"2l".to_string()));
}

#[test]
fn database_list_hides_all_reserved_fields_but_username() {
    let mut um = populated(&format!("{}", NOW + 3600));
    um.storage.insert("milk".to_string(), "2l".to_string());
    let listed = um.storage.list();
    assert_eq!(
        listed,
        vec![
            ("username".to_string(), "user@example.com".to_string()),
            ("milk".to_string(), "2l".to_string())
        ]
    );
}
