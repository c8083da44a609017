use bring_cli::kv::{Database, StoreError};

fn open(contents: &str) -> Database {
    match Database::from_contents(contents) {
        Ok(db) => db,
        Err(_) => panic!("expected contents to decode"),
    }
}

#[test]
fn open_empty_contents_gives_empty_store() {
    let db = open("");
    assert!(db.get(&"anything".to_string()).is_none());
}

#[test]
fn open_decodes_tab_separated_lines() {
    let db = open("alpha\tone\nbeta\ttwo\n");
    assert_eq!(db.get(&"alpha".to_string()), Some(&"one".to_string()));
    assert_eq!(db.get(&"beta".to_string()), Some(&"two".to_string()));
    assert!(db.get(&"gamma".to_string()).is_none());
}

#[test]
fn open_without_trailing_newline() {
    let db = open("alpha\tone");
    assert_eq!(db.get(&"alpha".to_string()), Some(&"one".to_string()));
}

#[test]
fn open_skips_empty_lines() {
    let db = open("alpha\tone\n\nbeta\ttwo\n");
    assert_eq!(db.get(&"alpha".to_string()), Some(&"one".to_string()));
    assert_eq!(db.get(&"beta".to_string()), Some(&"two".to_string()));
}

#[test]
fn open_keeps_later_record_for_duplicate_key() {
    let db = open("k\tfirst\nk\tsecond\n");
    assert_eq!(db.get(&"k".to_string()), Some(&"second".to_string()));
}

#[test]
fn open_keeps_tabs_inside_value() {
    // only the first tab delimits; the rest belong to the value
    let db = open("k\ta\tb\n");
    assert_eq!(db.get(&"k".to_string()), Some(&"a\tb".to_string()));
}

#[test]
fn line_without_tab_is_corrupt() {
    let r = Database::from_contents("alpha\tone\nno-delimiter-here\n");
    assert!(matches!(r, Err(StoreError::CorruptStore)));
}

#[test]
fn insert_then_get() {
    let mut db = Database::new();
    db.insert("k".to_string(), "v".to_string());
    assert_eq!(db.get(&"k".to_string()), Some(&"v".to_string()));
}

#[test]
fn insert_overwrites_existing_value() {
    let mut db = Database::new();
    db.insert("k".to_string(), "old".to_string());
    db.insert("k".to_string(), "new".to_string());
    assert_eq!(db.get(&"k".to_string()), Some(&"new".to_string()));
}

#[test]
fn remove_deletes_entry() {
    let mut db = Database::new();
    db.insert("k".to_string(), "v".to_string());
    db.remove(&"k".to_string());
    assert!(db.get(&"k".to_string()).is_none());
}

#[test]
fn remove_absent_key_is_noop() {
    let mut db = Database::new();
    db.insert("other".to_string(), "v".to_string());
    db.remove(&"missing".to_string());
    assert_eq!(db.get(&"other".to_string()), Some(&"v".to_string()));
}

#[test]
fn encode_writes_one_record_per_line() {
    let mut db = Database::new();
    db.insert("alpha".to_string(), "one".to_string());
    db.insert("beta".to_string(), "two".to_string());
    assert_eq!(db.encode(), "alpha\tone\nbeta\ttwo\n");
}

#[test]
fn encode_of_empty_store_is_empty() {
    let db = Database::new();
    assert_eq!(db.encode(), "");
}

#[test]
fn flush_then_open_round_trips_the_mapping() {
    let mut db = Database::new();
    db.insert("auth_token".to_string(), "abc".to_string());
    db.insert("recipe one".to_string(), "flour, eggs".to_string());
    db.insert("smörgås".to_string(), "åäö".to_string());
    db.insert("empty".to_string(), "".to_string());
    let reopened = open(&db.encode());
    assert_eq!(reopened.get(&"auth_token".to_string()), Some(&"abc".to_string()));
    assert_eq!(
        reopened.get(&"recipe one".to_string()),
        Some(&"flour, eggs".to_string())
    );
    assert_eq!(reopened.get(&"smörgås".to_string()), Some(&"åäö".to_string()));
    assert_eq!(reopened.get(&"empty".to_string()), Some(&"".to_string()));
}

#[test]
fn kv_list_hides_token_and_list_id() {
    let mut db = Database::new();
    db.insert("auth_token".to_string(), "abc".to_string());
    db.insert("list_uuid".to_string(), "L1".to_string());
    db.insert("milk".to_string(), "2l".to_string());
    let listed = db.list();
    assert_eq!(listed, vec![("milk".to_string(), "2l".to_string())]);
}

#[test]
fn list_excluding_keeps_order_and_drops_given_keys() {
    let mut db = Database::new();
    db.insert("a".to_string(), "1".to_string());
    db.insert("b".to_string(), "2".to_string());
    db.insert("c".to_string(), "3".to_string());
    let listed = db.list_excluding(&vec!["b".to_string()]);
    assert_eq!(
        listed,
        vec![
            ("a".to_string(), "1".to_string()),
            ("c".to_string(), "3".to_string())
        ]
    );
}
