use kvstore::auth::Permissions;
use kvstore::database::{Database, Response};
use kvstore::errors::DatabaseError;
use kvstore::parser::Command;
use kvstore::wal::{WALEntry, WALManager};
use serde_json::Value;

const ADMIN: u32 = 0;
const USER: u32 = 1;
const GUEST: u32 = 2;

fn users_file(accounts: &[(&str, &str, u32)]) -> Vec<u8> {
    let rows: Vec<(String, String, String, u32)> = accounts
        .iter()
        .map(|(name, password, code)| {
            (
                name.to_string(),
                name.to_string(),
                bcrypt::hash(password, 4).unwrap(),
                *code,
            )
        })
        .collect();
    bincode::serialize(&(rows, None::<String>)).unwrap()
}

fn standard_users() -> Vec<u8> {
    users_file(&[("alice", "pw1", ADMIN), ("bob", "pw2", USER), ("eve", "pw3", GUEST)])
}

fn store(users: &[u8]) -> Database {
    let mut log: Vec<u8> = Vec::new();
    Database::load_data("data".to_string(), Vec::new(), users, &mut log).unwrap()
}

fn store_of(name: &str, password: &str) -> Database {
    let mut db = store(&standard_users());
    db.login(name.to_string(), password.to_string()).unwrap();
    db
}

fn store_with_fruits() -> (Database, Vec<u8>) {
    let mut db = store_of("alice", "pw1");
    db.new_collection(&"fruits".to_string()).unwrap();
    db.select("fruits".to_string()).unwrap();
    (db, Vec::new())
}

fn text(s: &str) -> Value {
    Value::String(s.to_string())
}

fn message(r: Result<Response, DatabaseError>) -> String {
    match r {
        Ok(Response::Message(line)) => line,
        other => panic!("no message: {:?}", other),
    }
}

fn document(r: Result<Response, DatabaseError>) -> Value {
    match r {
        Ok(Response::Value(value)) => value,
        other => panic!("no document: {:?}", other),
    }
}

#[test]
fn alice_saves_and_finds_her_apple_after_a_restart() {
    let mut db = Database::new("data".to_string());
    let users = db
        .new_user(&"alice".to_string(), &"pw1".to_string(), Permissions::Admin())
        .unwrap();
    let mut log: Vec<u8> = Vec::new();
    db.login("alice".to_string(), "pw1".to_string()).unwrap();
    assert_eq!(message(db.which("user".to_string())), "alice");
    assert_eq!(message(db.new_collection(&"fruits".to_string())), "fruits created");
    assert_eq!(message(db.select("fruits".to_string())), "fruits selected");
    assert_eq!(document(db.insert("apple".to_string(), text("1"), &mut log)), Value::Null);
    assert!(!log.is_empty());
    let files = db.save_data(&mut log).unwrap();
    assert!(log.is_empty());
    assert_eq!(files.len(), 1);
    assert_eq!(files[0].0, "fruits");

    let mut restarted = Database::load_data("data".to_string(), files, &users, &mut log).unwrap();
    restarted.login("alice".to_string(), "pw1".to_string()).unwrap();
    restarted.select("fruits".to_string()).unwrap();
    assert_eq!(document(restarted.get("apple".to_string())), text("1"));
}

#[test]
fn a_new_store_is_empty() {
    let mut db = Database::new("data".to_string());
    let mut log: Vec<u8> = Vec::new();
    assert!(matches!(
        db.login("alice".to_string(), "pw1".to_string()),
        Err(DatabaseError::UserError(m)) if m == "User not found"
    ));
    assert!(matches!(
        db.get("k".to_string()),
        Err(DatabaseError::UserError(m)) if m == "Login to access the database"
    ));
    assert_eq!(db.find_collection_by_name(&"fruits".to_string()), None);
    assert!(db.write_and_clear_wal_log(&mut log).is_ok());
}

#[test]
fn insert_then_get_yields_the_document() {
    let (mut db, mut log) = store_with_fruits();
    let mut object = serde_json::Map::new();
    object.insert("colour".to_string(), text("red"));
    object.insert("weight".to_string(), Value::from(120));
    let value = Value::Object(object);
    assert_eq!(document(db.insert("apple".to_string(), value.clone(), &mut log)), Value::Null);
    assert_eq!(document(db.get("apple".to_string())), value);
    assert_eq!(document(db.insert("apple".to_string(), text("green"), &mut log)), Value::Null);
    assert_eq!(document(db.get("apple".to_string())), text("green"));
}

#[test]
fn after_delete_get_fails_with_value_not_found() {
    let (mut db, mut log) = store_with_fruits();
    db.insert("apple".to_string(), text("red"), &mut log).unwrap();
    db.insert("pear".to_string(), text("green"), &mut log).unwrap();
    assert_eq!(document(db.delete("apple".to_string(), &mut log)), text("red"));
    assert!(matches!(
        db.get("apple".to_string()),
        Err(DatabaseError::ValueNotFound(k)) if k == "apple"
    ));
    assert_eq!(document(db.get("pear".to_string())), text("green"));
}

#[test]
fn deleting_a_missing_key_is_logged_and_answers_value_not_found() {
    let (mut db, mut log) = store_with_fruits();
    assert!(matches!(
        db.delete("ghost".to_string(), &mut log),
        Err(DatabaseError::ValueNotFound(k)) if k == "ghost"
    ));
    let entries = WALManager::new("data".to_string()).read_wal_log(&log).unwrap();
    assert_eq!(entries.len(), 1);
    assert_eq!(entries[0].operation, "DELETE");
    assert_eq!(entries[0].key, "ghost");
    assert!(matches!(
        db.get("ghost".to_string()),
        Err(DatabaseError::ValueNotFound(_))
    ));
}

#[test]
fn every_change_appends_its_record_to_the_log() {
    let (mut db, mut log) = store_with_fruits();
    log.extend_from_slice(&[1, 2, 3]);
    db.insert("apple".to_string(), Value::from(1), &mut log).unwrap();
    db.delete("apple".to_string(), &mut log).unwrap();
    let mut expected: Vec<u8> = vec![1, 2, 3];
    WALEntry::new(
        "fruits".to_string(),
        "INSERT".to_string(),
        "apple".to_string(),
        Some(Value::from(1)),
    )
    .log(&mut expected)
    .unwrap();
    WALEntry::new("fruits".to_string(), "DELETE".to_string(), "apple".to_string(), None)
        .log(&mut expected)
        .unwrap();
    assert_eq!(log, expected);
}

#[test]
fn reading_leaves_the_log_alone() {
    let (mut db, mut log) = store_with_fruits();
    db.insert("apple".to_string(), Value::from(1), &mut log).unwrap();
    let before = log.clone();
    db.operate_db(Command::GET("apple".to_string()), &mut log).unwrap();
    db.operate_db(Command::WHICH("path".to_string()), &mut log).unwrap();
    db.operate_db(Command::SELECT("fruits".to_string()), &mut log).unwrap();
    db.operate_db(Command::NEW("roots".to_string()), &mut log).unwrap();
    assert_eq!(log, before);
}

#[test]
fn loading_after_a_crash_equals_saving_and_loading() {
    let users = standard_users();
    let mut log: Vec<u8> = Vec::new();
    let mut db = store(&users);
    db.login("alice".to_string(), "pw1".to_string()).unwrap();
    db.new_collection(&"fruits".to_string()).unwrap();
    db.new_collection(&"roots".to_string()).unwrap();
    db.select("fruits".to_string()).unwrap();
    db.insert("apple".to_string(), text("old"), &mut log).unwrap();
    let snapshot = db.save_data(&mut log).unwrap();
    assert!(log.is_empty());

    db.select("fruits".to_string()).unwrap();
    for i in 0..20 {
        db.insert(format!("k{}", i % 7), Value::from(i), &mut log).unwrap();
    }
    db.insert("apple".to_string(), text("new"), &mut log).unwrap();
    db.select("roots".to_string()).unwrap();
    db.insert("carrot".to_string(), Value::Bool(true), &mut log).unwrap();

    let mut crash_log = log.clone();
    let mut crashed =
        Database::load_data("data".to_string(), snapshot.clone(), &users, &mut crash_log).unwrap();
    assert!(crash_log.is_empty());

    let saved = db.save_data(&mut log).unwrap();
    assert!(log.is_empty());
    let mut reloaded = Database::load_data("data".to_string(), saved.clone(), &users, &mut log).unwrap();

    crashed.login("alice".to_string(), "pw1".to_string()).unwrap();
    reloaded.login("alice".to_string(), "pw1".to_string()).unwrap();
    let mut none: Vec<u8> = Vec::new();
    assert_eq!(crashed.save_data(&mut none).unwrap(), saved);
    assert_eq!(reloaded.save_data(&mut none).unwrap(), saved);

    crashed.select("fruits".to_string()).unwrap();
    assert_eq!(document(crashed.get("apple".to_string())), text("new"));
    assert_eq!(document(crashed.get("k6".to_string())), Value::from(13));
    assert_eq!(document(crashed.get("k5".to_string())), Value::from(19));
    crashed.select("roots".to_string()).unwrap();
    assert_eq!(document(crashed.get("carrot".to_string())), Value::Bool(true));
}

#[test]
fn a_guest_may_read_but_not_write() {
    let mut log: Vec<u8> = Vec::new();
    let mut db = store_of("alice", "pw1");
    db.new_collection(&"fruits".to_string()).unwrap();
    db.select("fruits".to_string()).unwrap();
    db.insert("apple".to_string(), text("red"), &mut log).unwrap();
    let logged = log.clone();

    db.login("eve".to_string(), "pw3".to_string()).unwrap();
    db.select("fruits".to_string()).unwrap();
    let denied = "Guest permissions cannot write data";
    assert!(matches!(
        db.insert("pear".to_string(), text("green"), &mut log),
        Err(DatabaseError::PermissionDenied(m)) if m == denied
    ));
    assert!(matches!(
        db.delete("apple".to_string(), &mut log),
        Err(DatabaseError::PermissionDenied(m)) if m == denied
    ));
    assert!(matches!(
        db.new_collection(&"roots".to_string()),
        Err(DatabaseError::PermissionDenied(m)) if m == denied
    ));
    assert!(matches!(
        db.save_data(&mut log),
        Err(DatabaseError::PermissionDenied(m)) if m == denied
    ));
    assert_eq!(log, logged);
    assert_eq!(document(db.get("apple".to_string())), text("red"));
    assert!(matches!(
        db.get("pear".to_string()),
        Err(DatabaseError::ValueNotFound(_))
    ));
    assert!(matches!(
        db.select("roots".to_string()),
        Err(DatabaseError::CollectionNotFound(_))
    ));
}

#[test]
fn a_user_may_write() {
    let mut log: Vec<u8> = Vec::new();
    let mut db = store_of("bob", "pw2");
    db.new_collection(&"fruits".to_string()).unwrap();
    db.select("fruits".to_string()).unwrap();
    db.insert("apple".to_string(), text("red"), &mut log).unwrap();
    assert_eq!(document(db.delete("apple".to_string(), &mut log)), text("red"));
    assert!(db.save_data(&mut log).is_ok());
}

#[test]
fn a_wrong_password_keeps_the_session_that_was() {
    let mut db = store_of("eve", "pw3");
    assert!(matches!(
        db.login("alice".to_string(), "nope".to_string()),
        Err(DatabaseError::UserError(m)) if m == "Incorrect Password"
    ));
    assert_eq!(message(db.which("user".to_string())), "eve");
    assert!(matches!(
        db.new_collection(&"fruits".to_string()),
        Err(DatabaseError::PermissionDenied(_))
    ));
    db.login("alice".to_string(), "pw1".to_string()).unwrap();
    assert_eq!(message(db.which("user".to_string())), "alice");
    assert!(db.new_collection(&"fruits".to_string()).is_ok());
}

#[test]
fn nothing_is_done_before_a_login() {
    let mut db = store(&standard_users());
    let mut log: Vec<u8> = Vec::new();
    let required = "Login to access the database";
    assert!(matches!(
        db.insert("k".to_string(), Value::Null, &mut log),
        Err(DatabaseError::UserError(m)) if m == required
    ));
    assert!(matches!(db.get("k".to_string()), Err(DatabaseError::UserError(m)) if m == required));
    assert!(matches!(
        db.delete("k".to_string(), &mut log),
        Err(DatabaseError::UserError(m)) if m == required
    ));
    assert!(matches!(
        db.select("fruits".to_string()),
        Err(DatabaseError::UserError(m)) if m == required
    ));
    assert!(matches!(
        db.new_collection(&"fruits".to_string()),
        Err(DatabaseError::UserError(m)) if m == required
    ));
    assert!(matches!(
        db.which("path".to_string()),
        Err(DatabaseError::UserError(m)) if m == required
    ));
    assert!(matches!(db.save_data(&mut log), Err(DatabaseError::UserError(m)) if m == required));
    assert!(log.is_empty());
}

#[test]
fn nothing_is_read_or_written_while_nothing_is_selected() {
    let mut db = store_of("alice", "pw1");
    let mut log: Vec<u8> = Vec::new();
    db.new_collection(&"fruits".to_string()).unwrap();
    let first = "Select a collection";
    assert!(matches!(
        db.insert("k".to_string(), Value::Null, &mut log),
        Err(DatabaseError::CollectionError(m)) if m == first
    ));
    assert!(matches!(
        db.get("k".to_string()),
        Err(DatabaseError::CollectionError(m)) if m == first
    ));
    assert!(matches!(
        db.delete("k".to_string(), &mut log),
        Err(DatabaseError::CollectionError(m)) if m == first
    ));
    assert!(log.is_empty());
    assert_eq!(message(db.which("collection".to_string())), "No collection selected");
}

#[test]
fn selecting_an_unknown_name_leaves_the_selection() {
    let (mut db, mut log) = store_with_fruits();
    db.insert("apple".to_string(), text("red"), &mut log).unwrap();
    assert!(matches!(
        db.select("roots".to_string()),
        Err(DatabaseError::CollectionNotFound(n)) if n == "roots"
    ));
    assert_eq!(message(db.which("collection".to_string())), "fruits selected");
    assert_eq!(document(db.get("apple".to_string())), text("red"));

    let mut fresh = store_of("alice", "pw1");
    assert!(matches!(
        fresh.select("fruits".to_string()),
        Err(DatabaseError::CollectionNotFound(n)) if n == "fruits"
    ));
    assert_eq!(message(fresh.which("collection".to_string())), "No collection selected");
}

#[test]
fn a_login_leaves_nothing_selected() {
    let (mut db, _log) = store_with_fruits();
    assert_eq!(message(db.which("collection".to_string())), "fruits selected");
    db.login("bob".to_string(), "pw2".to_string()).unwrap();
    assert_eq!(message(db.which("collection".to_string())), "No collection selected");
}

#[test]
fn which_answers_three_questions() {
    let (db, _log) = store_with_fruits();
    assert_eq!(message(db.which("collection".to_string())), "fruits selected");
    assert_eq!(message(db.which("path".to_string())), "data");
    assert_eq!(message(db.which("user".to_string())), "alice");
    assert!(matches!(
        db.which("weather".to_string()),
        Err(DatabaseError::ValueNotFound(m)) if m == "weather invalid"
    ));
    assert!(matches!(
        db.which("Path".to_string()),
        Err(DatabaseError::ValueNotFound(m)) if m == "Path invalid"
    ));
}

#[test]
fn a_name_finds_the_first_collection_that_has_it() {
    let mut db = store_of("alice", "pw1");
    db.new_collection(&"a".to_string()).unwrap();
    db.new_collection(&"b".to_string()).unwrap();
    db.new_collection(&"a".to_string()).unwrap();
    assert_eq!(db.find_collection_by_name(&"a".to_string()), Some(0));
    assert_eq!(db.find_collection_by_name(&"b".to_string()), Some(1));
    assert_eq!(db.find_collection_by_name(&"c".to_string()), None);
    assert_eq!(db.find_collection_by_name(&"".to_string()), None);
}

#[test]
fn each_command_runs_its_operation() {
    let mut db = store_of("alice", "pw1");
    let mut log: Vec<u8> = Vec::new();
    assert_eq!(
        message(db.operate_db(Command::NEW("fruits".to_string()), &mut log)),
        "fruits created"
    );
    assert_eq!(
        message(db.operate_db(Command::SELECT("fruits".to_string()), &mut log)),
        "fruits selected"
    );
    let inserted = db
        .operate_db(Command::INSERT("apple".to_string(), Value::from(3)), &mut log)
        .unwrap();
    assert!(inserted.is_silent());
    assert_eq!(
        document(db.operate_db(Command::GET("apple".to_string()), &mut log)),
        Value::from(3)
    );
    assert_eq!(
        message(db.operate_db(Command::WHICH("collection".to_string()), &mut log)),
        "fruits selected"
    );
    assert_eq!(
        document(db.operate_db(Command::DELETE("apple".to_string()), &mut log)),
        Value::from(3)
    );
    assert!(matches!(
        db.operate_db(Command::GET("apple".to_string()), &mut log),
        Err(DatabaseError::ValueNotFound(_))
    ));
}

#[test]
fn the_error_command_is_a_syntax_error_and_changes_nothing() {
    let (mut db, mut log) = store_with_fruits();
    db.insert("apple".to_string(), text("red"), &mut log).unwrap();
    let before = log.clone();
    match db.operate_db(Command::ERROR(), &mut log) {
        Err(e) => {
            assert!(matches!(&e, DatabaseError::SyntaxError(m) if m == "syntax error"));
            assert_eq!(e.to_string(), "Syntax Error: syntax error");
        }
        other => panic!("unexpected answer {:?}", other),
    }
    assert_eq!(log, before);
    assert_eq!(message(db.which("collection".to_string())), "fruits selected");
    assert_eq!(document(db.get("apple".to_string())), text("red"));
    let mut nobody = Database::new("data".to_string());
    assert!(matches!(
        nobody.operate_db(Command::ERROR(), &mut log),
        Err(DatabaseError::SyntaxError(m)) if m == "syntax error"
    ));
}

#[test]
fn only_the_null_document_is_silent() {
    assert!(Response::Value(Value::Null).is_silent());
    assert!(!Response::Value(Value::Bool(false)).is_silent());
    assert!(!Response::Value(Value::from(0)).is_silent());
    assert!(!Response::Value(text("")).is_silent());
    assert!(!Response::Message("".to_string()).is_silent());
}

#[test]
fn saving_hands_out_every_collection_and_empties_the_log() {
    let mut db = store_of("alice", "pw1");
    let mut log: Vec<u8> = Vec::new();
    db.new_collection(&"fruits".to_string()).unwrap();
    db.new_collection(&"roots".to_string()).unwrap();
    db.select("roots".to_string()).unwrap();
    db.insert("carrot".to_string(), Value::from(1), &mut log).unwrap();
    let files = db.save_data(&mut log).unwrap();
    assert!(log.is_empty());
    assert_eq!(files.len(), 2);
    assert_eq!(files[0].0, "fruits");
    assert_eq!(files[1].0, "roots");
    let no_rows: Vec<(String, String)> = Vec::new();
    assert_eq!(files[0].1, bincode::serialize(&(no_rows, "fruits".to_string())).unwrap());
    let rows: Vec<(String, String)> = vec![("carrot".to_string(), "1".to_string())];
    assert_eq!(files[1].1, bincode::serialize(&(rows, "roots".to_string())).unwrap());
    assert_eq!(message(db.which("collection".to_string())), "No collection selected");
}

#[test]
fn loading_a_snapshot_that_cannot_be_read_gives_an_empty_collection() {
    let users = standard_users();
    let mut log: Vec<u8> = Vec::new();
    let good = {
        let rows: Vec<(String, String)> = vec![("apple".to_string(), "1".to_string())];
        bincode::serialize(&(rows, "fruits".to_string())).unwrap()
    };
    let files = vec![
        ("fruits".to_string(), good),
        ("roots".to_string(), Vec::new()),
        ("herbs".to_string(), vec![1, 2, 3]),
    ];
    let mut db = Database::load_data("data".to_string(), files, &users, &mut log).unwrap();
    assert_eq!(db.find_collection_by_name(&"fruits".to_string()), Some(0));
    assert_eq!(db.find_collection_by_name(&"roots".to_string()), Some(1));
    assert_eq!(db.find_collection_by_name(&"herbs".to_string()), Some(2));
    db.login("alice".to_string(), "pw1".to_string()).unwrap();
    db.select("fruits".to_string()).unwrap();
    assert_eq!(document(db.get("apple".to_string())), Value::from(1));
    db.select("roots".to_string()).unwrap();
    assert!(matches!(db.get("apple".to_string()), Err(DatabaseError::ValueNotFound(_))));
}

#[test]
fn a_collection_keeps_the_name_in_its_snapshot() {
    let users = standard_users();
    let mut log: Vec<u8> = Vec::new();
    let rows: Vec<(String, String)> = Vec::new();
    let files = vec![(
        "renamed".to_string(),
        bincode::serialize(&(rows, "fruits".to_string())).unwrap(),
    )];
    let db = Database::load_data("data".to_string(), files, &users, &mut log).unwrap();
    assert_eq!(db.find_collection_by_name(&"fruits".to_string()), Some(0));
    assert_eq!(db.find_collection_by_name(&"renamed".to_string()), None);
}

#[test]
fn loading_needs_the_account_table() {
    let mut log: Vec<u8> = vec![4, 5, 6];
    assert!(matches!(
        Database::load_data("data".to_string(), Vec::new(), &[1, 2], &mut log),
        Err(DatabaseError::SerializationError(_))
    ));
    assert_eq!(log, vec![4, 5, 6]);
}

#[test]
fn loading_starts_with_nothing_selected_and_nobody_logged_in() {
    let users = standard_users();
    let mut log: Vec<u8> = Vec::new();
    let rows: Vec<(String, String)> = Vec::new();
    let files = vec![(
        "fruits".to_string(),
        bincode::serialize(&(rows, "fruits".to_string())).unwrap(),
    )];
    let mut db = Database::load_data("data".to_string(), files, &users, &mut log).unwrap();
    assert!(matches!(db.get("k".to_string()), Err(DatabaseError::UserError(_))));
    db.login("alice".to_string(), "pw1".to_string()).unwrap();
    assert_eq!(message(db.which("collection".to_string())), "No collection selected");
    assert_eq!(message(db.which("path".to_string())), "data");
}

#[test]
fn folding_the_log_applies_its_records_and_empties_it() {
    let (mut db, _) = store_with_fruits();
    db.new_collection(&"roots".to_string()).unwrap();
    let mut log: Vec<u8> = Vec::new();
    for (collection, operation, key, value) in [
        ("fruits", "INSERT", "apple", Some(Value::from(1))),
        ("roots", "INSERT", "carrot", Some(Value::from(2))),
        ("fruits", "INSERT", "apple", Some(Value::from(3))),
        ("fruits", "DELETE", "ghost", None),
        ("roots", "GET", "carrot", None),
        ("fruits", "INSERT", "pear", Some(Value::from(4))),
        ("fruits", "DELETE", "pear", None),
    ] {
        WALEntry::new(collection.to_string(), operation.to_string(), key.to_string(), value)
            .log(&mut log)
            .unwrap();
    }
    db.write_and_clear_wal_log(&mut log).unwrap();
    assert!(log.is_empty());
    assert_eq!(message(db.which("collection".to_string())), "fruits selected");
    assert_eq!(document(db.get("apple".to_string())), Value::from(3));
    assert!(matches!(db.get("pear".to_string()), Err(DatabaseError::ValueNotFound(_))));
    db.select("roots".to_string()).unwrap();
    assert_eq!(document(db.get("carrot".to_string())), Value::from(2));
}

#[test]
fn a_record_for_an_unknown_collection_stops_the_folding_and_keeps_the_log() {
    let (mut db, _) = store_with_fruits();
    let mut log: Vec<u8> = Vec::new();
    WALEntry::new("fruits".to_string(), "INSERT".to_string(), "apple".to_string(), Some(Value::from(1)))
        .log(&mut log)
        .unwrap();
    WALEntry::new("roots".to_string(), "INSERT".to_string(), "carrot".to_string(), Some(Value::from(2)))
        .log(&mut log)
        .unwrap();
    WALEntry::new("fruits".to_string(), "INSERT".to_string(), "pear".to_string(), Some(Value::from(3)))
        .log(&mut log)
        .unwrap();
    let before = log.clone();
    assert!(matches!(
        db.write_and_clear_wal_log(&mut log),
        Err(DatabaseError::CollectionNotFound(n)) if n == "roots"
    ));
    assert_eq!(log, before);
    assert_eq!(document(db.get("apple".to_string())), Value::from(1));
    assert!(matches!(db.get("pear".to_string()), Err(DatabaseError::ValueNotFound(_))));
    assert!(matches!(
        db.save_data(&mut log),
        Err(DatabaseError::CollectionNotFound(n)) if n == "roots"
    ));
    assert_eq!(log, before);
}

#[test]
fn a_record_that_stands_for_no_command_stops_the_folding() {
    let (mut db, _) = store_with_fruits();
    let mut log: Vec<u8> = Vec::new();
    WALEntry::new("fruits".to_string(), "MERGE".to_string(), "apple".to_string(), None)
        .log(&mut log)
        .unwrap();
    let before = log.clone();
    assert!(matches!(
        db.write_and_clear_wal_log(&mut log),
        Err(DatabaseError::SyntaxError(m)) if m == "syntax error"
    ));
    assert_eq!(log, before);
}

#[test]
fn loading_folds_the_log_without_a_session() {
    let users = standard_users();
    let rows: Vec<(String, String)> = vec![("apple".to_string(), "1".to_string())];
    let files = vec![(
        "fruits".to_string(),
        bincode::serialize(&(rows, "fruits".to_string())).unwrap(),
    )];
    let mut log: Vec<u8> = Vec::new();
    WALEntry::new("fruits".to_string(), "INSERT".to_string(), "pear".to_string(), Some(Value::from(2)))
        .log(&mut log)
        .unwrap();
    WALEntry::new("fruits".to_string(), "DELETE".to_string(), "apple".to_string(), None)
        .log(&mut log)
        .unwrap();
    log.extend_from_slice(&[9, 0, 0, 0]);
    let mut db = Database::load_data("data".to_string(), files, &users, &mut log).unwrap();
    assert!(log.is_empty());
    db.login("eve".to_string(), "pw3".to_string()).unwrap();
    db.select("fruits".to_string()).unwrap();
    assert_eq!(document(db.get("pear".to_string())), Value::from(2));
    assert!(matches!(db.get("apple".to_string()), Err(DatabaseError::ValueNotFound(_))));
}

#[test]
fn loading_fails_on_a_record_for_an_unknown_collection() {
    let users = standard_users();
    let mut log: Vec<u8> = Vec::new();
    WALEntry::new("fruits".to_string(), "INSERT".to_string(), "pear".to_string(), Some(Value::from(2)))
        .log(&mut log)
        .unwrap();
    let before = log.clone();
    assert!(matches!(
        Database::load_data("data".to_string(), Vec::new(), &users, &mut log),
        Err(DatabaseError::CollectionNotFound(n)) if n == "fruits"
    ));
    assert_eq!(log, before);
}

#[test]
fn a_new_account_needs_no_login_and_a_name_is_taken_once() {
    let mut db = store(&users_file(&[("alice", "pw1", ADMIN)]));
    assert!(matches!(
        db.new_user(&"alice".to_string(), &"other".to_string(), Permissions::Guest()),
        Err(DatabaseError::UserError(m)) if m == "Username already taken"
    ));
    let bytes = db
        .new_user(&"dave".to_string(), &"pw4".to_string(), Permissions::Guest())
        .unwrap();
    db.login("dave".to_string(), "pw4".to_string()).unwrap();
    assert_eq!(message(db.which("user".to_string())), "dave");
    assert!(matches!(
        db.new_collection(&"fruits".to_string()),
        Err(DatabaseError::PermissionDenied(_))
    ));
    let mut log: Vec<u8> = Vec::new();
    let mut reloaded = Database::load_data("data".to_string(), Vec::new(), &bytes, &mut log).unwrap();
    assert!(reloaded.login("alice".to_string(), "pw1".to_string()).is_ok());
}

#[test]
fn both_loadings_give_a_document_as_its_text_reads_back() {
    let users = standard_users();
    let mut log: Vec<u8> = Vec::new();
    let mut db = store(&users);
    db.login("alice".to_string(), "pw1".to_string()).unwrap();
    db.new_collection(&"fruits".to_string()).unwrap();
    let snapshot = db.save_data(&mut log).unwrap();

    let odd = Value::from(f64::from_bits(0xbc69cf4276846d19));
    let as_read: Value = serde_json::from_str(&serde_json::to_string(&odd).unwrap()).unwrap();
    db.select("fruits".to_string()).unwrap();
    db.insert("weight".to_string(), odd.clone(), &mut log).unwrap();
    assert_eq!(document(db.get("weight".to_string())), odd);

    let mut crash_log = log.clone();
    let mut crashed =
        Database::load_data("data".to_string(), snapshot, &users, &mut crash_log).unwrap();
    let saved = db.save_data(&mut log).unwrap();
    let mut reloaded = Database::load_data("data".to_string(), saved, &users, &mut log).unwrap();

    crashed.login("alice".to_string(), "pw1".to_string()).unwrap();
    crashed.select("fruits".to_string()).unwrap();
    reloaded.login("alice".to_string(), "pw1".to_string()).unwrap();
    reloaded.select("fruits".to_string()).unwrap();
    assert_eq!(document(crashed.get("weight".to_string())), as_read);
    assert_eq!(document(reloaded.get("weight".to_string())), as_read);
}

#[test]
fn the_first_phase_only_writes_the_record() {
    let (mut db, mut log) = store_with_fruits();
    db.insert("apple".to_string(), text("red"), &mut log).unwrap();
    let before = log.clone();

    let insertion = Command::INSERT("pear".to_string(), Value::from(2));
    db.log_command(&insertion, &mut log).unwrap();
    let mut expected = before.clone();
    WALEntry::new("fruits".to_string(), "INSERT".to_string(), "pear".to_string(), Some(Value::from(2)))
        .log(&mut expected)
        .unwrap();
    assert_eq!(log, expected);
    assert!(matches!(db.get("pear".to_string()), Err(DatabaseError::ValueNotFound(_))));

    let deletion = Command::DELETE("apple".to_string());
    db.log_command(&deletion, &mut log).unwrap();
    WALEntry::new("fruits".to_string(), "DELETE".to_string(), "apple".to_string(), None)
        .log(&mut expected)
        .unwrap();
    assert_eq!(log, expected);
    assert_eq!(document(db.get("apple".to_string())), text("red"));

    for command in [
        Command::GET("apple".to_string()),
        Command::SELECT("fruits".to_string()),
        Command::NEW("roots".to_string()),
        Command::WHICH("user".to_string()),
        Command::ERROR(),
    ] {
        db.log_command(&command, &mut log).unwrap();
    }
    assert_eq!(log, expected);
    assert_eq!(db.find_collection_by_name(&"roots".to_string()), None);
}

#[test]
fn the_first_phase_fails_as_the_operation_does() {
    let mut log: Vec<u8> = Vec::new();
    let insertion = Command::INSERT("k".to_string(), Value::Null);
    let deletion = Command::DELETE("k".to_string());

    let nobody = store(&standard_users());
    assert!(matches!(
        nobody.log_command(&insertion, &mut log),
        Err(DatabaseError::UserError(m)) if m == "Login to access the database"
    ));
    let mut guest = store_of("eve", "pw3");
    assert!(matches!(
        guest.log_command(&deletion, &mut log),
        Err(DatabaseError::PermissionDenied(m)) if m == "Guest permissions cannot write data"
    ));
    assert!(guest.log_command(&Command::GET("k".to_string()), &mut log).is_ok());
    let unselected = store_of("alice", "pw1");
    assert!(matches!(
        unselected.log_command(&insertion, &mut log),
        Err(DatabaseError::CollectionError(m)) if m == "Select a collection"
    ));
    assert!(matches!(
        guest.apply_logged(Command::INSERT("k".to_string(), Value::Null)),
        Err(DatabaseError::PermissionDenied(_))
    ));
    assert!(log.is_empty());
}

#[test]
fn the_two_phases_make_the_whole_operation() {
    let (mut whole, mut whole_log) = store_with_fruits();
    let (mut phased, mut phased_log) = store_with_fruits();
    let commands = || {
        vec![
            Command::INSERT("apple".to_string(), Value::from(1)),
            Command::INSERT("pear".to_string(), text("green")),
            Command::GET("apple".to_string()),
            Command::DELETE("apple".to_string()),
            Command::DELETE("ghost".to_string()),
            Command::NEW("roots".to_string()),
            Command::SELECT("roots".to_string()),
            Command::INSERT("carrot".to_string(), Value::Bool(true)),
            Command::WHICH("collection".to_string()),
            Command::ERROR(),
        ]
    };
    for (a, b) in commands().into_iter().zip(commands()) {
        let expected = whole.operate_db(a, &mut whole_log);
        let answer = match phased.log_command(&b, &mut phased_log) {
            Ok(()) => phased.apply_logged(b),
            Err(e) => Err(e),
        };
        assert_eq!(format!("{:?}", answer), format!("{:?}", expected));
        assert_eq!(phased_log, whole_log);
    }
    let mut none: Vec<u8> = Vec::new();
    let mut other: Vec<u8> = Vec::new();
    assert_eq!(phased.save_data(&mut none).unwrap(), whole.save_data(&mut other).unwrap());
}

#[test]
fn the_second_phase_writes_to_no_log() {
    let (mut db, _) = store_with_fruits();
    assert!(db
        .apply_logged(Command::INSERT("apple".to_string(), Value::from(1)))
        .unwrap()
        .is_silent());
    assert_eq!(document(db.get("apple".to_string())), Value::from(1));
    assert_eq!(
        document(db.apply_logged(Command::DELETE("apple".to_string()))),
        Value::from(1)
    );
    assert!(matches!(
        db.apply_logged(Command::DELETE("apple".to_string())),
        Err(DatabaseError::ValueNotFound(k)) if k == "apple"
    ));
    assert!(matches!(
        db.apply_logged(Command::ERROR()),
        Err(DatabaseError::SyntaxError(m)) if m == "syntax error"
    ));
}

#[test]
fn a_new_account_holds_a_hash_that_accepts_its_password() {
    let mut db = Database::new("data".to_string());
    let users = db
        .new_user(&"alice".to_string(), &"pw1".to_string(), Permissions::User())
        .unwrap();
    assert!(!users.is_empty());
    assert!(db.login("alice".to_string(), "pw1".to_string()).is_ok());
    assert!(matches!(
        db.login("alice".to_string(), "pw2".to_string()),
        Err(DatabaseError::UserError(m)) if m == "Incorrect Password"
    ));
}
