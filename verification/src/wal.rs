//! The write-ahead log: one record for each change of a collection, appended
//! before the change is made, and read back in order after a crash.

use crate::codec::{
    decode_record, encode_record, measure_record, record_bytes, record_length, record_parsed,
    record_reads_back,
};
use crate::errors::{joined, DatabaseError, Failure};
use crate::json::{json_parse, json_text, text_to_value, value_to_text};
use crate::parser::{Command, Request};
use serde_json::Value;
use vstd::prelude::*;
use vstd::slice::slice_subrange;

verus! {

/// One record of the log: the collection it is about, the operation
/// (`INSERT` or `DELETE`), the key, and for an insertion the text of the
/// document.
#[derive(Debug)]
pub struct WALEntry {
    pub collection: String,
    pub operation: String,
    pub key: String,
    pub value: Option<String>,
}

/// A log record as a mathematical value.
pub struct Record {
    pub collection: Seq<char>,
    pub operation: Seq<char>,
    pub key: Seq<char>,
    pub value: Option<Seq<char>>,
}

impl View for WALEntry {
    type V = Record;

    open spec fn view(&self) -> Record {
        Record {
            collection: self.collection@,
            operation: self.operation@,
            key: self.key@,
            value: self.value.deep_view(),
        }
    }
}

impl DeepView for WALEntry {
    type V = Record;

    open spec fn deep_view(&self) -> Record {
        self@
    }
}

impl Record {
    /// The record that puts `value` under `key` in `collection`. The document
    /// is carried as its text.
    pub open spec fn insertion(collection: Seq<char>, key: Seq<char>, value: Value) -> Record {
        Record { collection, operation: "INSERT"@, key, value: json_text(value) }
    }

    /// The record that takes `key` out of `collection`.
    pub open spec fn deletion(collection: Seq<char>, key: Seq<char>) -> Record {
        Record { collection, operation: "DELETE"@, key, value: None }
    }

    /// The bytes of the record in the log, where it can be written.
    pub open spec fn bytes(self) -> Option<Seq<u8>> {
        record_bytes(self.collection, self.operation, self.key, self.value)
    }

    /// Whether the record reads back from its bytes: it can be written, and a
    /// reading that starts at its bytes gives the record again, whatever
    /// follows them in the log. The codec gives this of every record that it
    /// writes.
    pub open spec fn reads_back(self) -> bool {
        self.bytes() matches Some(bytes) && record_reads_back(
            bytes,
            self.collection,
            self.operation,
            self.key,
            self.value,
        )
    }

    /// The command that the record stands for. An insertion needs a text that
    /// reads as a document; a record without one, or with an operation that
    /// is none of `INSERT`, `GET` and `DELETE`, stands for the error command.
    pub open spec fn request(self) -> Request {
        if self.operation == "INSERT"@ {
            match self.value {
                Some(text) => match json_parse(text) {
                    Some(value) => Request::Insert(self.key, value),
                    None => Request::Error,
                },
                None => Request::Error,
            }
        } else if self.operation == "GET"@ {
            Request::Get(self.key)
        } else if self.operation == "DELETE"@ {
            Request::Delete(self.key)
        } else {
            Request::Error
        }
    }
}

/// The record that stands at the start of `bytes` together with the number of
/// bytes it takes, where a whole record stands there.
pub open spec fn first_record(bytes: Seq<u8>) -> Option<(Record, int)> {
    match record_parsed(bytes) {
        Some(fields) => match record_length(fields.0, fields.1, fields.2, fields.3) {
            Some(n) => if 0 < n <= bytes.len() {
                Some(
                    (
                        Record {
                            collection: fields.0,
                            operation: fields.1,
                            key: fields.2,
                            value: fields.3,
                        },
                        n as int,
                    ),
                )
            } else {
                None
            },
            None => None,
        },
        None => None,
    }
}

/// The records that a log holds, in the order in which they were appended.
/// Reading stops at the end of the bytes or at the first place where no whole
/// record stands; what follows that place is left out.
pub open spec fn records_in(bytes: Seq<u8>) -> Seq<Record>
    decreases bytes.len(),
{
    match first_record(bytes) {
        Some((record, n)) => seq![record] + records_in(bytes.skip(n)),
        None => seq![],
    }
}

/// The bytes of a log to which the records were appended in order, and
/// nothing else.
pub open spec fn log_of(records: Seq<Record>) -> Seq<u8>
    decreases records.len(),
{
    if records.len() == 0 {
        Seq::empty()
    } else {
        records.first().bytes().unwrap() + log_of(records.drop_first())
    }
}

/// Whether a log holds exactly the records, in order: it is made of their
/// bytes, and each of them reads back. A log is so after every record was
/// appended to it by `WALEntry::log`, starting from the empty log.
pub open spec fn holds_exactly(log: Seq<u8>, records: Seq<Record>) -> bool {
    &&& log == log_of(records)
    &&& forall|i: int| 0 <= i < records.len() ==> (#[trigger] records[i]).reads_back()
}

/// Appending one more record to a log appends its bytes.
pub proof fn lemma_log_of_push(records: Seq<Record>, record: Record)
    ensures
        log_of(records.push(record)) == log_of(records) + record.bytes().unwrap(),
    decreases records.len(),
{
    let more = records.push(record);
    if records.len() == 0 {
        assert(more.first() == record);
        assert(more.drop_first() =~= Seq::<Record>::empty());
        assert(log_of(more.drop_first()) =~= Seq::<u8>::empty());
        assert(log_of(records) =~= Seq::<u8>::empty());
        assert(log_of(more) =~= record.bytes().unwrap());
        assert(log_of(records) + record.bytes().unwrap() =~= record.bytes().unwrap());
    } else {
        lemma_log_of_push(records.drop_first(), record);
        assert(more.drop_first() =~= records.drop_first().push(record));
        assert(more.first() == records.first());
        assert(log_of(more) =~= log_of(records) + record.bytes().unwrap());
    }
}

/// A log that holds exactly some records still does so, with one record
/// more, after a record that reads back was appended to it.
pub proof fn lemma_log_grows(log: Seq<u8>, records: Seq<Record>, record: Record)
    requires
        holds_exactly(log, records),
        record.reads_back(),
    ensures
        holds_exactly(log + record.bytes().unwrap(), records.push(record)),
{
    lemma_log_of_push(records, record);
    let more = records.push(record);
    assert forall|i: int| 0 <= i < more.len() implies (#[trigger] more[i]).reads_back() by {
        if i < records.len() {
            assert(more[i] == records[i]);
        }
    }
}

/// Reading a log that holds exactly some records gives those records: no
/// record is lost, none is changed, and none is made up.
pub proof fn lemma_log_reads_back(log: Seq<u8>, records: Seq<Record>)
    requires
        holds_exactly(log, records),
    ensures
        records_in(log) == records,
    decreases records.len(),
{
    if records.len() == 0 {
        assert(first_record(log) is None);
        assert(records =~= Seq::<Record>::empty());
    } else {
        let record = records.first();
        let bytes = record.bytes().unwrap();
        let rest = records.drop_first();
        let tail = log_of(rest);
        assert(records[0].reads_back());
        assert(record_parsed(bytes + tail) == Some(
            (record.collection, record.operation, record.key, record.value),
        ));
        assert(first_record(log) == Some((record, bytes.len() as int)));
        assert(log.skip(bytes.len() as int) =~= tail);
        assert forall|i: int| 0 <= i < rest.len() implies (#[trigger] rest[i]).reads_back() by {
            assert(rest[i] == records[i + 1]);
        }
        lemma_log_reads_back(tail, rest);
        assert(seq![record] + rest =~= records);
    }
}

/// Whether the words of an operation are the given ones.
fn is_word(operation: &String, word: &str) -> (same: bool)
    ensures
        same == (operation@ == word@),
{
    *operation == word.to_owned()
}

impl WALEntry {
    /// A record of the given fields. A document is carried as its compact
    /// text; where there is no document, or the document has no text, the
    /// record carries none.
    pub fn new(collection: String, operation: String, key: String, value: Option<Value>) -> (entry:
        WALEntry)
        ensures
            entry@ == (Record {
                collection: collection@,
                operation: operation@,
                key: key@,
                value: match value {
                    Some(v) => json_text(v),
                    None => None,
                },
            }),
    {
        let text = match value {
            Some(v) => match value_to_text(&v) {
                Ok(text) => Some(text),
                Err(_) => None,
            },
            None => None,
        };
        WALEntry { collection, operation, key, value: text }
    }

    /// Appends the record to the log.
    ///
    /// Where the record can be written, the log grows by exactly its bytes,
    /// and the record reads back from them. Where it cannot, the log stays as
    /// it was and the failure is a `SerializationError`.
    pub fn log(&self, log: &mut Vec<u8>) -> (r: Result<(), DatabaseError>)
        ensures
            match r {
                Ok(_) => {
                    &&& self@.bytes() matches Some(bytes) && final(log)@ == old(log)@ + bytes
                    &&& self@.reads_back()
                },
                Err(e) => self@.bytes() is None && final(log)@ == old(log)@ && e@ is SerializationError,
            },
    {
        match encode_record(&self.collection, &self.operation, &self.key, &self.value) {
            Ok(mut bytes) => {
                log.append(&mut bytes);
                Ok(())
            },
            Err(err) => Err(DatabaseError::from(err)),
        }
    }

    /// The command that the record stands for.
    pub fn convert_to_operation(&self) -> (command: Command)
        ensures
            command@ == self@.request(),
    {
        if is_word(&self.operation, "INSERT") {
            match &self.value {
                Some(text) => match text_to_value(text.as_str()) {
                    Ok(value) => Command::INSERT(self.key.clone(), value),
                    Err(_) => Command::ERROR(),
                },
                None => Command::ERROR(),
            }
        } else if is_word(&self.operation, "GET") {
            Command::GET(self.key.clone())
        } else if is_word(&self.operation, "DELETE") {
            Command::DELETE(self.key.clone())
        } else {
            Command::ERROR()
        }
    }
}

/// Keeps the place of the log.
#[derive(Debug)]
pub struct WALManager {
    pub path: String,
}

/// The record that a command leaves in the log of `collection`: one for an
/// insertion and one for a deletion, none for any other command.
pub open spec fn record_for(command: Request, collection: Seq<char>) -> Option<Record> {
    match command {
        Request::Insert(key, value) => Some(Record::insertion(collection, key, value)),
        Request::Delete(key) => Some(Record::deletion(collection, key)),
        _ => None,
    }
}

impl WALManager {
    /// A manager of the log under the directory `path`.
    pub fn new(path: String) -> (manager: WALManager)
        ensures
            manager.path@ == path@,
    {
        WALManager { path }
    }

    /// The name of the log's file: `wal.log` under the manager's directory.
    pub fn file_name(&self) -> (name: String)
        ensures
            name@ == self.path@ + "/wal.log"@,
    {
        joined(self.path.as_str(), "/wal.log")
    }

    /// Logs a command that is about to change `collection`.
    ///
    /// An insertion or a deletion leaves one record, which is appended to the
    /// log and returned. An insertion of a document that has no text fails
    /// with `Other`, and a record that cannot be written with
    /// `SerializationError`; the log then stays as it was. Any other command
    /// changes nothing and leaves no record.
    pub fn operate(&self, command: Command, collection: String, log: &mut Vec<u8>) -> (r: Result<
        Option<WALEntry>,
        DatabaseError,
    >)
        ensures
            match r {
                Ok(Some(entry)) => {
                    &&& record_for(command@, collection@) == Some(entry@)
                    &&& command@ is Insert ==> entry@.value is Some
                    &&& entry@.bytes() matches Some(bytes) && final(log)@ == old(log)@ + bytes
                    &&& entry@.reads_back()
                },
                Ok(None) => record_for(command@, collection@) is None && final(log)@ == old(log)@,
                Err(e) => {
                    &&& final(log)@ == old(log)@
                    &&& record_for(command@, collection@) matches Some(record)
                    &&& if command@ is Insert && record.value is None {
                        e@ == Failure::Other("incorrect json"@)
                    } else {
                        record.bytes() is None && e@ is SerializationError
                    }
                },
            },
    {
        let entry = match command {
            Command::INSERT(key, value) => {
                let entry = WALEntry::new(collection, "INSERT".to_owned(), key, Some(value));
                if entry.value.is_none() {
                    return Err(DatabaseError::Other("incorrect json".to_owned()));
                }
                entry
            },
            Command::DELETE(key) => WALEntry::new(collection, "DELETE".to_owned(), key, None),
            _ => {
                return Ok(None);
            },
        };
        match entry.log(log) {
            Ok(_) => Ok(Some(entry)),
            Err(e) => Err(e),
        }
    }

    /// Reads the records of a log, in the order in which they were appended.
    ///
    /// Reading never fails: it stops at the end of the bytes or at the first
    /// place where no whole record stands, and returns the records before
    /// that place.
    pub fn read_wal_log(&self, bytes: &[u8]) -> (r: Result<Vec<WALEntry>, DatabaseError>)
        ensures
            r matches Ok(entries) && entries.deep_view() == records_in(bytes@),
    {
        let mut entries: Vec<WALEntry> = Vec::new();
        let mut pos: usize = 0;
        assert(bytes@.skip(0) =~= bytes@);
        assert(entries.deep_view() =~= Seq::<Record>::empty());
        while pos < bytes.len()
            invariant
                pos <= bytes@.len(),
                records_in(bytes@) == entries.deep_view() + records_in(bytes@.skip(pos as int)),
            decreases bytes@.len() - pos,
        {
            let rest = slice_subrange(bytes, pos, bytes.len());
            assert(rest@ =~= bytes@.skip(pos as int));
            let entry = match decode_record(rest) {
                Ok((collection, operation, key, value)) => WALEntry { collection, operation, key, value },
                Err(_) => {
                    assert(entries.deep_view() + Seq::<Record>::empty() =~= entries.deep_view());
                    return Ok(entries);
                },
            };
            let size: u64 = match measure_record(&entry.collection, &entry.operation, &entry.key, &entry.value) {
                Ok(size) => size,
                Err(_) => {
                    assert(entries.deep_view() + Seq::<Record>::empty() =~= entries.deep_view());
                    return Ok(entries);
                },
            };
            if size == 0 || size > (rest.len() as u64) {
                assert(entries.deep_view() + Seq::<Record>::empty() =~= entries.deep_view());
                return Ok(entries);
            }
            let ghost before = entries.deep_view();
            proof {
                assert(first_record(rest@) == Some((entry@, size as int)));
                assert(rest@.skip(size as int) =~= bytes@.skip(pos + size));
                assert(before.push(entry@) + records_in(bytes@.skip(pos + size)) =~= before + (seq![entry@]
                    + records_in(bytes@.skip(pos + size))));
            }
            entries.push(entry);
            assert(entries.deep_view() =~= before.push(entries@[entries@.len() - 1]@));
            pos = pos + (size as usize);
        }
        proof {
            assert(bytes@.skip(pos as int) =~= Seq::<u8>::empty());
            assert(first_record(Seq::<u8>::empty()) is None);
            assert(entries.deep_view() + Seq::<Record>::empty() =~= entries.deep_view());
        }
        Ok(entries)
    }
}

} // verus!
