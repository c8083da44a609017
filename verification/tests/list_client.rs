use bring_cli::bring::{auth_request_body, capitalize_first_letter, edit_list_body,
    format_purchase_list, join_words, list_url, login_info_from_fields, Action, CredentialError};

#[test]
fn capitalize_plain_word() {
    assert_eq!(capitalize_first_letter("apple"), "Apple");
}

#[test]
fn capitalize_empty_string() {
    assert_eq!(capitalize_first_letter(""), "");
}

#[test]
fn capitalize_already_uppercase() {
    assert_eq!(capitalize_first_letter("Apple"), "Apple");
}

#[test]
fn capitalize_umlaut() {
    assert_eq!(capitalize_first_letter("äpple"), "Äpple");
}

#[test]
fn capitalize_can_grow_the_word() {
    // the uppercase mapping of a sharp s is two characters
    assert_eq!(capitalize_first_letter("ßwort"), "SSwort");
}

#[test]
fn action_phrases() {
    assert_eq!(Action::ADD.phrase(), "added to");
    assert_eq!(Action::REMOVE.phrase(), "removed from");
}

#[test]
fn auth_body_format() {
    assert_eq!(
        auth_request_body("user@example.com", "hunter2"),
        "email=user@example.com&password=hunter2"
    );
}

#[test]
fn list_url_appends_list_id() {
    assert_eq!(
        list_url("L1"),
        "https://api.getbring.com/rest/v2/bringlists/L1"
    );
}

#[test]
fn edit_body_add_without_specification() {
    assert_eq!(
        edit_list_body("L1", "Milk", None, &Action::ADD),
        "uuid=L1&purchase=Milk"
    );
}

#[test]
fn edit_body_remove_without_specification() {
    assert_eq!(
        edit_list_body("L1", "Milk", None, &Action::REMOVE),
        "uuid=L1&remove=Milk"
    );
}

#[test]
fn edit_body_with_specification() {
    assert_eq!(
        edit_list_body("L1", "Milk", Some("2l"), &Action::ADD),
        "uuid=L1&purchase=Milk&specification=2l"
    );
}

#[test]
fn join_words_empty() {
    assert_eq!(join_words(&vec![]), "");
}

#[test]
fn join_words_single() {
    assert_eq!(join_words(&vec!["milk".to_string()]), "milk");
}

#[test]
fn join_words_many() {
    assert_eq!(
        join_words(&vec![
            "dark".to_string(),
            "rye".to_string(),
            "bread".to_string()
        ]),
        "dark rye bread"
    );
}

#[test]
fn format_empty_purchase_list() {
    assert_eq!(format_purchase_list(&vec![]), "-------------\n");
}

#[test]
fn format_purchase_list_with_and_without_info() {
    let items = vec![
        ("Milk".to_string(), Some("2l".to_string())),
        ("Bread".to_string(), None),
    ];
    assert_eq!(
        format_purchase_list(&items),
        "-------------\nName: Milk\nInfo: 2l\n-------------\nName: Bread\n-------------\n"
    );
}

#[test]
fn login_info_needs_token_first() {
    let r = login_info_from_fields(None, Some("L1".to_string()), Some(3600), 100);
    assert!(matches!(r, Err(CredentialError::MissingToken)));
}

#[test]
fn login_info_needs_list_id_second() {
    let r = login_info_from_fields(Some("abc".to_string()), None, Some(3600), 100);
    assert!(matches!(r, Err(CredentialError::MissingListUuid)));
}

#[test]
fn login_info_needs_expiration_third() {
    let r = login_info_from_fields(Some("abc".to_string()), Some("L1".to_string()), None, 100);
    assert!(matches!(r, Err(CredentialError::MissingExpiration)));
}

#[test]
fn login_info_adds_expiration_to_now() {
    let li = match login_info_from_fields(
        Some("abc".to_string()),
        Some("L1".to_string()),
        Some(3600),
        1_700_000_000,
    ) {
        Ok(li) => li,
        Err(_) => panic!("all fields are present"),
    };
    assert_eq!(li.auth_token, "abc");
    assert_eq!(li.list_uuid, "L1");
    assert_eq!(li.expiration_timestamp, 1_700_003_600);
}
