use kvstore::parser::Command;
use kvstore::wal::{WALEntry, WALManager};
use serde_json::Value;

fn number(n: i64) -> Value {
    Value::from(n)
}

#[test]
fn wal_log() {
    let entry = WALEntry::new(
        "fruits".to_string(),
        "INSERT".to_string(),
        "apple".to_string(),
        Some(number(1)),
    );
    let mut log: Vec<u8> = Vec::new();
    entry.log(&mut log).unwrap();
    assert!(!log.is_empty());
    let manager = WALManager::new("data".to_string());
    let entries = manager.read_wal_log(&log).unwrap();
    assert_eq!(entries.len(), 1);
    assert_eq!(entries[0].collection, "fruits");
    assert_eq!(entries[0].operation, "INSERT");
    assert_eq!(entries[0].key, "apple");
    assert_eq!(entries[0].value, Some("1".to_string()));
}

#[test]
fn entry_carries_a_document_as_its_compact_text() {
    let mut object = serde_json::Map::new();
    object.insert("b".to_string(), Value::Bool(true));
    object.insert("a".to_string(), Value::String("x y".to_string()));
    let entry = WALEntry::new(
        "c".to_string(),
        "INSERT".to_string(),
        "k".to_string(),
        Some(Value::Object(object)),
    );
    assert_eq!(entry.value, Some("{\"a\":\"x y\",\"b\":true}".to_string()));
}

#[test]
fn entry_without_a_document_carries_no_text() {
    let entry = WALEntry::new("c".to_string(), "DELETE".to_string(), "k".to_string(), None);
    assert_eq!(entry.value, None);
    assert_eq!(entry.collection, "c");
    assert_eq!(entry.operation, "DELETE");
    assert_eq!(entry.key, "k");
}

#[test]
fn record_has_the_bytes_that_the_codec_gives() {
    let entry = WALEntry::new(
        "c".to_string(),
        "INSERT".to_string(),
        "k".to_string(),
        Some(number(1)),
    );
    let mut log: Vec<u8> = vec![9, 9];
    entry.log(&mut log).unwrap();
    let mut expected: Vec<u8> = vec![9, 9];
    expected.extend_from_slice(&[1, 0, 0, 0, 0, 0, 0, 0, b'c']);
    expected.extend_from_slice(&[6, 0, 0, 0, 0, 0, 0, 0]);
    expected.extend_from_slice(b"INSERT");
    expected.extend_from_slice(&[1, 0, 0, 0, 0, 0, 0, 0, b'k']);
    expected.extend_from_slice(&[1, 1, 0, 0, 0, 0, 0, 0, 0, b'1']);
    assert_eq!(log, expected);
}

#[test]
fn records_come_back_in_the_order_of_appending() {
    let mut log: Vec<u8> = Vec::new();
    for i in 0..5 {
        let entry = WALEntry::new(
            "c".to_string(),
            "INSERT".to_string(),
            format!("k{}", i),
            Some(number(i)),
        );
        entry.log(&mut log).unwrap();
    }
    WALEntry::new("c".to_string(), "DELETE".to_string(), "k0".to_string(), None)
        .log(&mut log)
        .unwrap();
    let entries = WALManager::new("d".to_string()).read_wal_log(&log).unwrap();
    assert_eq!(entries.len(), 6);
    for i in 0..5 {
        assert_eq!(entries[i].key, format!("k{}", i));
        assert_eq!(entries[i].value, Some(format!("{}", i)));
    }
    assert_eq!(entries[5].operation, "DELETE");
    assert_eq!(entries[5].value, None);
}

#[test]
fn reading_an_empty_log_gives_no_records() {
    let entries = WALManager::new("d".to_string()).read_wal_log(&[]).unwrap();
    assert!(entries.is_empty());
}

#[test]
fn a_broken_tail_is_left_out() {
    let mut log: Vec<u8> = Vec::new();
    WALEntry::new("c".to_string(), "INSERT".to_string(), "a".to_string(), Some(number(1)))
        .log(&mut log)
        .unwrap();
    let whole = log.len();
    WALEntry::new("c".to_string(), "INSERT".to_string(), "b".to_string(), Some(number(2)))
        .log(&mut log)
        .unwrap();
    log.truncate(log.len() - 3);
    assert!(log.len() > whole);
    let entries = WALManager::new("d".to_string()).read_wal_log(&log).unwrap();
    assert_eq!(entries.len(), 1);
    assert_eq!(entries[0].key, "a");
}

#[test]
fn bytes_that_are_no_record_give_no_records() {
    let log: Vec<u8> = vec![255, 255, 255, 255, 255, 255, 255, 255, 1, 2, 3];
    let entries = WALManager::new("d".to_string()).read_wal_log(&log).unwrap();
    assert!(entries.is_empty());
}

#[test]
fn records_after_a_broken_one_are_lost() {
    let mut log: Vec<u8> = Vec::new();
    WALEntry::new("c".to_string(), "INSERT".to_string(), "a".to_string(), Some(number(1)))
        .log(&mut log)
        .unwrap();
    log.extend_from_slice(&[200, 0, 0, 0, 0, 0, 0, 0, 1]);
    WALEntry::new("c".to_string(), "INSERT".to_string(), "b".to_string(), Some(number(2)))
        .log(&mut log)
        .unwrap();
    let entries = WALManager::new("d".to_string()).read_wal_log(&log).unwrap();
    assert_eq!(entries.len(), 1);
}

#[test]
fn an_insertion_record_stands_for_an_insertion() {
    let entry = WALEntry::new(
        "c".to_string(),
        "INSERT".to_string(),
        "k".to_string(),
        Some(Value::String("v".to_string())),
    );
    match entry.convert_to_operation() {
        Command::INSERT(key, value) => {
            assert_eq!(key, "k");
            assert_eq!(value, Value::String("v".to_string()));
        }
        other => panic!("unexpected command {:?}", other),
    }
}

#[test]
fn a_deletion_record_stands_for_a_deletion() {
    let entry = WALEntry::new("c".to_string(), "DELETE".to_string(), "k".to_string(), None);
    assert!(matches!(entry.convert_to_operation(), Command::DELETE(key) if key == "k"));
}

#[test]
fn a_reading_record_stands_for_a_reading() {
    let entry = WALEntry::new("c".to_string(), "GET".to_string(), "k".to_string(), None);
    assert!(matches!(entry.convert_to_operation(), Command::GET(key) if key == "k"));
}

#[test]
fn a_record_of_an_unknown_operation_stands_for_the_error_command() {
    let entry = WALEntry::new("c".to_string(), "UPSERT".to_string(), "k".to_string(), None);
    assert!(matches!(entry.convert_to_operation(), Command::ERROR()));
    let lower = WALEntry::new("c".to_string(), "insert".to_string(), "k".to_string(), Some(number(1)));
    assert!(matches!(lower.convert_to_operation(), Command::ERROR()));
}

#[test]
fn an_insertion_record_without_a_document_stands_for_the_error_command() {
    let missing = WALEntry::new("c".to_string(), "INSERT".to_string(), "k".to_string(), None);
    assert!(matches!(missing.convert_to_operation(), Command::ERROR()));
    let broken = WALEntry {
        collection: "c".to_string(),
        operation: "INSERT".to_string(),
        key: "k".to_string(),
        value: Some("{not json".to_string()),
    };
    assert!(matches!(broken.convert_to_operation(), Command::ERROR()));
}

#[test]
fn the_manager_logs_changes_only() {
    let manager = WALManager::new("data".to_string());
    assert_eq!(manager.path, "data");
    assert_eq!(manager.file_name(), "data/wal.log");
    let mut log: Vec<u8> = Vec::new();
    let inserted = manager
        .operate(Command::INSERT("k".to_string(), number(7)), "c".to_string(), &mut log)
        .unwrap()
        .unwrap();
    assert_eq!(inserted.operation, "INSERT");
    assert_eq!(inserted.value, Some("7".to_string()));
    let after_insert = log.len();
    assert!(after_insert > 0);
    let deleted = manager
        .operate(Command::DELETE("k".to_string()), "c".to_string(), &mut log)
        .unwrap()
        .unwrap();
    assert_eq!(deleted.operation, "DELETE");
    assert_eq!(deleted.value, None);
    let after_delete = log.len();
    assert!(after_delete > after_insert);
    assert!(manager
        .operate(Command::GET("k".to_string()), "c".to_string(), &mut log)
        .unwrap()
        .is_none());
    assert!(manager
        .operate(Command::SELECT("c".to_string()), "c".to_string(), &mut log)
        .unwrap()
        .is_none());
    assert!(manager
        .operate(Command::ERROR(), "c".to_string(), &mut log)
        .unwrap()
        .is_none());
    assert_eq!(log.len(), after_delete);
    let entries = manager.read_wal_log(&log).unwrap();
    assert_eq!(entries.len(), 2);
}
