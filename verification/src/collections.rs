//! A collection: a named table of JSON documents, each under a string key.

use crate::codec::{decode_snapshot, encode_snapshot, snapshot_bytes, snapshot_parsed};
use crate::errors::{DatabaseError, Failure};
use crate::json::{
    json_parse, json_text, key_order, object_entries, object_get, object_insert, object_keys,
    object_new, object_remove, text_to_value, value_clone, value_to_text, views,
};
use serde_json::Value;
use vstd::prelude::*;

verus! {

/// A named table of documents. Keys are unique; nothing else is promised of
/// their order.
#[derive(Debug)]
pub struct Collection {
    data: serde_json::Map<String, Value>,
    pub name: String,
}

/// A collection as a mathematical value: its name and what each key holds.
pub struct Table {
    pub name: Seq<char>,
    pub entries: Map<Seq<char>, Value>,
}

/// One row of a stored collection: a key and the text of its document.
pub type StoredRow = (Seq<char>, Seq<char>);

impl Table {
    /// Every document of the table has a text.
    pub open spec fn texts_complete(self) -> bool {
        forall|k: Seq<char>| self.entries.contains_key(k) ==> json_text(#[trigger] self.entries[k]) is Some
    }

    /// The stored rows of the table: for each key, in the order in which the
    /// table keeps its keys, the key and the text of its document.
    pub open spec fn rows(self) -> Seq<StoredRow> {
        key_order(self.entries.dom()).map_values(
            |k: Seq<char>| (k, json_text(self.entries[k]).unwrap()),
        )
    }

    /// The bytes of the table's snapshot, where it can be written: every
    /// document has a text, and the rows and the name can be encoded.
    pub open spec fn bytes(self) -> Option<Seq<u8>> {
        if self.texts_complete() {
            snapshot_bytes(self.rows(), self.name)
        } else {
            None
        }
    }

    /// The table without entries of the given name.
    pub open spec fn empty(name: Seq<char>) -> Table {
        Table { name, entries: Map::empty() }
    }

    /// Every document of the table can be read back.
    pub open spec fn readable(self) -> bool {
        forall|k: Seq<char>| self.entries.contains_key(k) ==> readable(#[trigger] self.entries[k])
    }

    /// The table with each document as it reads back.
    pub open spec fn read_back(self) -> Table {
        Table { name: self.name, entries: self.entries.map_values(|value: Value| read_back(value)) }
    }

    /// Whether the snapshot of the table reads back: it can be written, and
    /// holds the table with each document as it reads back.
    pub open spec fn snapshot_reads_back(self) -> bool {
        self.bytes() matches Some(bytes) && stored_table(bytes) == Some(self.read_back())
    }
}

/// A document can be read back where it has a text and the text stands for
/// a document.
pub open spec fn readable(value: Value) -> bool {
    json_text(value) matches Some(text) && json_parse(text) is Some
}

/// The document that the text of a document stands for.
pub open spec fn read_back(value: Value) -> Value {
    json_parse(json_text(value).unwrap()).unwrap()
}

/// A document is stable where it reads back as itself.
pub open spec fn stable(value: Value) -> bool {
    readable(value) && read_back(value) == value
}

/// The stored rows of some keys of a table, in the order of the keys.
pub open spec fn rows_of(entries: Map<Seq<char>, Value>, keys: Seq<Seq<char>>) -> Seq<StoredRow> {
    keys.map_values(|k: Seq<char>| (k, json_text(entries[k]).unwrap()))
}

/// The rows of the first `n` keys stand for entries: each of those keys with
/// its document as it reads back.
proof fn lemma_rows_read_back(entries: Map<Seq<char>, Value>, keys: Seq<Seq<char>>, n: int)
    requires
        0 <= n <= keys.len(),
        forall|j: int| 0 <= j < n ==> readable(entries[#[trigger] keys[j]]),
    ensures
        entries_of_rows(rows_of(entries, keys).take(n)) matches Some(held) && {
            &&& forall|k: Seq<char>|
                held.contains_key(k) <==> exists|j: int| 0 <= j < n && #[trigger] keys[j] == k
            &&& forall|k: Seq<char>| held.contains_key(k) ==> #[trigger] held[k] == read_back(entries[k])
        },
    decreases n,
{
    let rows = rows_of(entries, keys);
    if n == 0 {
        assert(rows.take(0) =~= Seq::<StoredRow>::empty());
    } else {
        lemma_rows_read_back(entries, keys, n - 1);
        let before = entries_of_rows(rows.take(n - 1)).unwrap();
        assert(rows.take(n).drop_last() =~= rows.take(n - 1));
        assert(rows.take(n).last() == (keys[n - 1], json_text(entries[keys[n - 1]]).unwrap()));
        assert(readable(entries[keys[n - 1]]));
        let held = entries_of_rows(rows.take(n)).unwrap();
        assert(held == before.insert(keys[n - 1], read_back(entries[keys[n - 1]])));
        assert forall|k: Seq<char>| held.contains_key(k) implies exists|j: int|
            0 <= j < n && #[trigger] keys[j] == k by {
            if k == keys[n - 1] {
            } else {
                assert(before.contains_key(k));
                let j = choose|j: int| 0 <= j < n - 1 && #[trigger] keys[j] == k;
                assert(keys[j] == k);
            }
        }
        assert forall|k: Seq<char>| (exists|j: int| 0 <= j < n && #[trigger] keys[j] == k) implies held.contains_key(
            k,
        ) by {
            let j = choose|j: int| 0 <= j < n && #[trigger] keys[j] == k;
            if j < n - 1 {
                assert(before.contains_key(k));
            }
        }
    }
}

/// The entries that stored rows stand for: each key holds the document that
/// its text stands for, a later row of a key standing before an earlier one.
/// Rows stand for no entries where one of the texts is not a document.
pub open spec fn entries_of_rows(rows: Seq<StoredRow>) -> Option<Map<Seq<char>, Value>>
    decreases rows.len(),
{
    if rows.len() == 0 {
        Some(Map::empty())
    } else {
        match (entries_of_rows(rows.drop_last()), json_parse(rows.last().1)) {
            (Some(entries), Some(value)) => Some(entries.insert(rows.last().0, value)),
            _ => None,
        }
    }
}

/// The table that the bytes of a snapshot hold, where they hold one.
pub open spec fn stored_table(bytes: Seq<u8>) -> Option<Table> {
    match snapshot_parsed(bytes) {
        Some(stored) => match entries_of_rows(stored.0) {
            Some(entries) => Some(Table { name: stored.1, entries }),
            None => None,
        },
        None => None,
    }
}

/// Rows that stand for entries do so from their first row on: every prefix
/// of them stands for entries too.
proof fn lemma_rows_prefix(rows: Seq<StoredRow>, n: int)
    requires
        0 <= n <= rows.len(),
        entries_of_rows(rows) is Some,
    ensures
        entries_of_rows(rows.take(n)) is Some,
    decreases rows.len(),
{
    if n == rows.len() {
        assert(rows.take(n) =~= rows);
    } else {
        lemma_rows_prefix(rows.drop_last(), n);
        assert(rows.drop_last().take(n) =~= rows.take(n));
    }
}

impl View for Collection {
    type V = Table;

    closed spec fn view(&self) -> Table {
        Table { name: self.name@, entries: object_entries(self.data) }
    }
}

impl Collection {
    /// The name of the collection.
    pub fn name(&self) -> (name: &String)
        ensures
            name@ == self@.name,
    {
        &self.name
    }

    /// An empty collection of the given name.
    pub fn new(name: String) -> (c: Collection)
        ensures
            c@.name == name@,
            c@.entries == Map::<Seq<char>, Value>::empty(),
    {
        Collection { data: object_new(), name }
    }

    /// Puts `value` under `key` and returns what the key held before, if
    /// anything.
    pub fn insert(&mut self, key: String, value: Value) -> (previous: Option<Value>)
        ensures
            final(self)@.name == old(self)@.name,
            final(self)@.entries == old(self)@.entries.insert(key@, value),
            previous == old(self)@.entries.get(key@),
    {
        object_insert(&mut self.data, key, value)
    }

    /// The document under `key`, if the collection has the key.
    pub fn get(&self, key: String) -> (found: Option<Value>)
        ensures
            found == self@.entries.get(key@),
    {
        match object_get(&self.data, key.as_str()) {
            Some(v) => Some(value_clone(v)),
            None => None,
        }
    }

    /// Takes `key` out and returns the document it held, if the collection
    /// had the key.
    pub fn delete(&mut self, key: String) -> (removed: Option<Value>)
        ensures
            final(self)@.name == old(self)@.name,
            final(self)@.entries == old(self)@.entries.remove(key@),
            removed == old(self)@.entries.get(key@),
    {
        object_remove(&mut self.data, key.as_str())
    }

    /// The bytes of the collection's snapshot.
    ///
    /// Fails with `Other` where some document has no text, and otherwise
    /// with `SerializationError` where the rows cannot be encoded. Bytes that
    /// come back read back: where every document can be read back, they hold
    /// the collection with each document as its text reads.
    pub fn to_bytes(&self) -> (r: Result<Vec<u8>, DatabaseError>)
        ensures
            match r {
                Ok(bytes) => self@.bytes() == Some(bytes@),
                Err(e) => self@.bytes() is None && if self@.texts_complete() {
                    e@ is SerializationError
                } else {
                    e@ == Failure::Other("incorrect json"@)
                },
            },
            r is Ok && self@.readable() ==> self@.snapshot_reads_back(),
    {
        let keys = object_keys(&self.data);
        let ghost order = key_order(self@.entries.dom());
        let mut rows: Vec<(String, String)> = Vec::new();
        let mut i: usize = 0;
        while i < keys.len()
            invariant
                i <= keys@.len(),
                views(keys@) == order,
                order == key_order(self@.entries.dom()),
                forall|k: Seq<char>| order.contains(k) <==> self@.entries.contains_key(k),
                forall|j: int| 0 <= j < i ==> json_text(self@.entries[#[trigger] order[j]]) is Some,
                rows.deep_view() =~= self@.rows().take(i as int),
            decreases keys@.len() - i,
        {
            let key = &keys[i];
            assert(order[i as int] == key@);
            assert(order.contains(key@));
            let value = match object_get(&self.data, key.as_str()) {
                Some(value) => value,
                None => unreached(),
            };
            let text = match value_to_text(value) {
                Ok(text) => text,
                Err(err) => {
                    return Err(DatabaseError::from(err));
                },
            };
            let row = (key.clone(), text);
            rows.push(row);
            assert(rows.deep_view() =~= self@.rows().take(i as int).push(self@.rows()[i as int]));
            i += 1;
        }
        proof {
            assert(self@.rows().take(i as int) =~= self@.rows());
            assert forall|k: Seq<char>| self@.entries.contains_key(k) implies json_text(
                #[trigger] self@.entries[k],
            ) is Some by {
                assert(order.contains(k));
                let j = choose|j: int| 0 <= j < order.len() && order[j] == k;
                assert(json_text(self@.entries[order[j]]) is Some);
            }
        }
        match encode_snapshot(&rows, &self.name) {
            Ok(bytes) => {
                proof {
                    if self@.readable() {
                        let entries = self@.entries;
                        assert(self@.rows() =~= rows_of(entries, order));
                        assert forall|j: int| 0 <= j < order.len() implies readable(
                            entries[#[trigger] order[j]],
                        ) by {
                            assert(order.contains(order[j]));
                        }
                        lemma_rows_read_back(entries, order, order.len() as int);
                        assert(rows_of(entries, order).take(order.len() as int) =~= rows_of(entries, order));
                        let held = entries_of_rows(self@.rows()).unwrap();
                        assert forall|k: Seq<char>| held.contains_key(k) <==> entries.contains_key(k) by {
                            if entries.contains_key(k) {
                                assert(order.contains(k));
                                let j = choose|j: int| 0 <= j < order.len() && order[j] == k;
                                assert(order[j] == k);
                            }
                            if held.contains_key(k) {
                                let j = choose|j: int| 0 <= j < order.len() && #[trigger] order[j] == k;
                                assert(order.contains(order[j]));
                            }
                        }
                        assert(held =~= self@.read_back().entries);
                    }
                }
                Ok(bytes)
            },
            Err(err) => Err(DatabaseError::from(err)),
        }
    }

    /// The collection that the bytes of a snapshot hold.
    ///
    /// Succeeds exactly where the bytes hold rows and a name and every row's
    /// text is a document. Every failure is a `SerializationError`.
    pub fn from_bytes(bytes: &[u8]) -> (r: Result<Collection, DatabaseError>)
        ensures
            match r {
                Ok(c) => stored_table(bytes@) == Some(c@),
                Err(e) => stored_table(bytes@) is None && e@ is SerializationError,
            },
    {
        let (rows, name) = match decode_snapshot(bytes) {
            Ok(stored) => stored,
            Err(err) => {
                return Err(DatabaseError::from(err));
            },
        };
        let ghost stored = rows.deep_view();
        let mut data = object_new();
        let mut i: usize = 0;
        assert(stored.take(0) =~= Seq::<StoredRow>::empty());
        while i < rows.len()
            invariant
                i <= rows@.len(),
                stored == rows.deep_view(),
                snapshot_parsed(bytes@) == Some((stored, name@)),
                entries_of_rows(stored.take(i as int)) == Some(object_entries(data)),
            decreases rows@.len() - i,
        {
            let row = &rows[i];
            assert(stored[i as int] == row.deep_view());
            assert(stored.take(i + 1).drop_last() =~= stored.take(i as int));
            let value = match text_to_value(row.1.as_str()) {
                Ok(value) => value,
                Err(_) => {
                    proof {
                        if entries_of_rows(stored) is Some {
                            lemma_rows_prefix(stored, i + 1);
                        }
                    }
                    return Err(
                        DatabaseError::SerializationError("bincode: a stored text is no document".to_owned()),
                    );
                },
            };
            object_insert(&mut data, row.0.clone(), value);
            i += 1;
        }
        assert(stored.take(i as int) =~= stored);
        Ok(Collection { data, name })
    }
}

} // verus!
