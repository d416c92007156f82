//! The binary form of what the store keeps on disk, as `bincode` writes and
//! reads it: one record of the write-ahead log, the snapshot of a collection,
//! and the snapshot of the account table.
//!
//! Each value is handed to `bincode` as a tuple of strings and integers. What
//! comes back depends on what was handed over and on nothing else, so each
//! result has a name here; the store's contracts speak of those names. Of a
//! log record and of a collection's snapshot one thing more is stated, which
//! recovery rests on: what was written reads back as it was.

use vstd::prelude::*;

verus! {

/// The fields of one log record: collection, operation, key and, for an
/// insertion, the text of the document.
pub type RecordFields = (Seq<char>, Seq<char>, Seq<char>, Option<Seq<char>>);

/// The stored form of a collection: each key with the text of its document,
/// then the collection's name.
pub type SnapshotFields = (Seq<(Seq<char>, Seq<char>)>, Seq<char>);

/// The stored form of the account table: for each account the name it is
/// filed under, its name, its password hash and the number of its permission;
/// then the name of whoever logged in last.
pub type RegistryFields = (Seq<(Seq<char>, Seq<char>, Seq<char>, u32)>, Option<Seq<char>>);

/// The bytes of a log record, where it can be written.
pub uninterp spec fn record_bytes(
    collection: Seq<char>,
    operation: Seq<char>,
    key: Seq<char>,
    value: Option<Seq<char>>,
) -> Option<Seq<u8>>;

/// The number of bytes that a log record takes, where it can be written.
pub uninterp spec fn record_length(
    collection: Seq<char>,
    operation: Seq<char>,
    key: Seq<char>,
    value: Option<Seq<char>>,
) -> Option<u64>;

/// The log record that stands at the start of some bytes, where one does.
pub uninterp spec fn record_parsed(bytes: Seq<u8>) -> Option<RecordFields>;

/// The bytes of a collection's snapshot, where it can be written.
pub uninterp spec fn snapshot_bytes(entries: Seq<(Seq<char>, Seq<char>)>, name: Seq<char>) -> Option<Seq<u8>>;

/// The snapshot of a collection that some bytes hold, where they hold one.
pub uninterp spec fn snapshot_parsed(bytes: Seq<u8>) -> Option<SnapshotFields>;

/// The bytes of the account table's snapshot, where it can be written.
pub uninterp spec fn registry_bytes(
    users: Seq<(Seq<char>, Seq<char>, Seq<char>, u32)>,
    current: Option<Seq<char>>,
) -> Option<Seq<u8>>;

/// The snapshot of the account table that some bytes hold, where they hold
/// one.
pub uninterp spec fn registry_parsed(bytes: Seq<u8>) -> Option<RegistryFields>;

/// Whether `bytes` read back as the log record of the given fields: they are
/// not empty, they are as many as the record is measured to take, and a
/// reading that starts at them gives the fields again, whatever bytes follow.
pub open spec fn record_reads_back(
    bytes: Seq<u8>,
    collection: Seq<char>,
    operation: Seq<char>,
    key: Seq<char>,
    value: Option<Seq<char>>,
) -> bool {
    &&& 0 < bytes.len() <= u64::MAX
    &&& record_length(collection, operation, key, value) == Some(bytes.len() as u64)
    &&& forall|tail: Seq<u8>| #[trigger]
        record_parsed(bytes + tail) == Some((collection, operation, key, value))
}

/// Calls `bincode::serialize` on the fields of a log record.
///
/// The bytes that come back read back as the record. `bincode` writes each
/// string as its length in eight bytes and then its bytes, and the option as
/// one byte and then its string; `bincode::serialized_size` counts exactly
/// those bytes, and `bincode::deserialize` reads exactly those bytes back and
/// leaves unread what follows them.
#[verifier::external_body]
pub(crate) fn encode_record(
    collection: &String,
    operation: &String,
    key: &String,
    value: &Option<String>,
) -> (r: Result<Vec<u8>, bincode::Error>)
    ensures
        r.is_ok() == record_bytes(collection@, operation@, key@, value.deep_view()).is_some(),
        r matches Ok(b) ==> record_bytes(collection@, operation@, key@, value.deep_view()) == Some(b@),
        r matches Ok(b) ==> record_reads_back(b@, collection@, operation@, key@, value.deep_view()),
{
    bincode::serialize(&(collection, operation, key, value))
}

/// Calls `bincode::serialized_size` on the fields of a log record.
#[verifier::external_body]
pub(crate) fn measure_record(
    collection: &String,
    operation: &String,
    key: &String,
    value: &Option<String>,
) -> (r: Result<u64, bincode::Error>)
    ensures
        r.is_ok() == record_length(collection@, operation@, key@, value.deep_view()).is_some(),
        r matches Ok(n) ==> record_length(collection@, operation@, key@, value.deep_view()) == Some(n),
{
    bincode::serialized_size(&(collection, operation, key, value))
}

/// Calls `bincode::deserialize` for the fields of a log record. The call
/// reads from the start of the bytes and leaves what follows the record
/// unread.
#[verifier::external_body]
pub(crate) fn decode_record(bytes: &[u8]) -> (r: Result<
    (String, String, String, Option<String>),
    bincode::Error,
>)
    ensures
        r.is_ok() == record_parsed(bytes@).is_some(),
        r matches Ok(fields) ==> record_parsed(bytes@) == Some(fields.deep_view()),
{
    bincode::deserialize(bytes)
}

/// Calls `bincode::serialize` on the stored form of a collection.
///
/// The bytes that come back read back as what was written: `bincode` writes
/// the number of rows and then each row, every string as its length and its
/// bytes, and `bincode::deserialize` reads the same number of rows and the
/// same strings back.
#[verifier::external_body]
pub(crate) fn encode_snapshot(entries: &Vec<(String, String)>, name: &String) -> (r: Result<
    Vec<u8>,
    bincode::Error,
>)
    ensures
        r.is_ok() == snapshot_bytes(entries.deep_view(), name@).is_some(),
        r matches Ok(b) ==> snapshot_bytes(entries.deep_view(), name@) == Some(b@),
        r matches Ok(b) ==> snapshot_parsed(b@) == Some((entries.deep_view(), name@)),
{
    bincode::serialize(&(entries, name))
}

/// Calls `bincode::deserialize` for the stored form of a collection.
#[verifier::external_body]
pub(crate) fn decode_snapshot(bytes: &[u8]) -> (r: Result<
    (Vec<(String, String)>, String),
    bincode::Error,
>)
    ensures
        r.is_ok() == snapshot_parsed(bytes@).is_some(),
        r matches Ok(fields) ==> snapshot_parsed(bytes@) == Some(fields.deep_view()),
{
    bincode::deserialize(bytes)
}

/// Calls `bincode::serialize` on the stored form of the account table.
#[verifier::external_body]
pub(crate) fn encode_registry(
    users: &Vec<(String, String, String, u32)>,
    current: &Option<String>,
) -> (r: Result<Vec<u8>, bincode::Error>)
    ensures
        r.is_ok() == registry_bytes(users.deep_view(), current.deep_view()).is_some(),
        r matches Ok(b) ==> registry_bytes(users.deep_view(), current.deep_view()) == Some(b@),
{
    bincode::serialize(&(users, current))
}

/// Calls `bincode::deserialize` for the stored form of the account table.
#[verifier::external_body]
pub(crate) fn decode_registry(bytes: &[u8]) -> (r: Result<
    (Vec<(String, String, String, u32)>, Option<String>),
    bincode::Error,
>)
    ensures
        r.is_ok() == registry_parsed(bytes@).is_some(),
        r matches Ok(fields) ==> registry_parsed(bytes@) == Some(fields.deep_view()),
{
    bincode::deserialize(bytes)
}

} // verus!
