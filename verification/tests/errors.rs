use kvstore::errors::DatabaseError;

#[test]
fn each_failure_is_shown_under_its_heading() {
    assert_eq!(
        DatabaseError::ValueNotFound("k".to_string()).to_string(),
        "Value not found: k"
    );
    assert_eq!(
        DatabaseError::SyntaxError("Unknown command".to_string()).to_string(),
        "Syntax Error: Unknown command"
    );
    assert_eq!(
        DatabaseError::PermissionDenied("Guest".to_string()).to_string(),
        "Permission not high enough: Guest"
    );
    assert_eq!(
        DatabaseError::CollectionNotFound("fruits".to_string()).to_string(),
        "Collection not found: fruits"
    );
    assert_eq!(
        DatabaseError::UserError("User not found".to_string()).to_string(),
        "Login Error: User not found"
    );
    assert_eq!(
        DatabaseError::SerializationError("bad".to_string()).to_string(),
        "Serialization Error: bad"
    );
    assert_eq!(
        DatabaseError::CollectionError("Select a collection".to_string()).to_string(),
        "Collection Error: Select a collection"
    );
    assert_eq!(DatabaseError::Other("x".to_string()).to_string(), "Error: x");
}

#[test]
fn a_failure_of_the_file_system_keeps_its_cause() {
    let cause = std::io::Error::new(std::io::ErrorKind::NotFound, "no such directory");
    let e = DatabaseError::IOError(cause);
    assert_eq!(e.to_string(), "IO error: no such directory");
    match e {
        DatabaseError::IOError(inner) => assert_eq!(inner.kind(), std::io::ErrorKind::NotFound),
        other => panic!("unexpected failure {:?}", other),
    }
}

#[test]
fn an_empty_message_leaves_the_heading_alone() {
    assert_eq!(DatabaseError::SyntaxError("".to_string()).to_string(), "Syntax Error: ");
}

#[test]
fn a_failure_of_the_file_system_converts_as_it_is() {
    let cause = std::io::Error::new(std::io::ErrorKind::PermissionDenied, "locked");
    let e = DatabaseError::from(cause);
    assert!(matches!(&e, DatabaseError::IOError(inner) if inner.kind() == std::io::ErrorKind::PermissionDenied));
    assert_eq!(e.to_string(), "IO error: locked");
}

#[test]
fn a_failure_of_the_codec_is_a_serialization_error() {
    let cause = bincode::deserialize::<String>(&[1, 2, 3]).unwrap_err();
    let said = cause.to_string();
    match DatabaseError::from(cause) {
        DatabaseError::SerializationError(message) => {
            assert_eq!(message, format!("bincode: {}", said));
        }
        other => panic!("unexpected failure {:?}", other),
    }
}

#[test]
fn a_failure_of_the_hash_is_another_error() {
    let cause = bcrypt::BcryptError::CostNotAllowed(99);
    let said = cause.to_string();
    match DatabaseError::from(cause) {
        DatabaseError::Other(message) => assert_eq!(message, format!("bcrypt: {}", said)),
        other => panic!("unexpected failure {:?}", other),
    }
}

#[test]
fn a_text_that_is_no_document_is_incorrect_json() {
    let cause = serde_json::from_str::<serde_json::Value>("{oops").unwrap_err();
    let e = DatabaseError::from(cause);
    assert!(matches!(&e, DatabaseError::Other(m) if m == "incorrect json"));
    assert_eq!(e.to_string(), "Error: incorrect json");
}
