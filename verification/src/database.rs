//! The store itself: its collections, the account table, the collection that
//! is selected and the session that is logged in, with the guards that stand
//! before every operation.

use crate::auth::{stored_registry, AuthManager, Permissions, Registry};
use crate::collections::{stored_table, Collection, Table};
use crate::errors::{joined, DatabaseError, Failure};
use crate::json::{is_null, null_value, value_clone, value_is_null};
use crate::parser::{Command, Request};
use crate::session::{Identity, Session};
use crate::wal::{records_in, Record, WALEntry, WALManager};
use serde_json::Value;
use vstd::prelude::*;

verus! {

/// Whether a collection is selected, and which.
#[derive(Debug)]
enum DatabaseState {
    SelectedCollection(usize),
    Unselected(),
}

/// What a successful operation answers: a line for the reader, or a
/// document.
#[derive(Debug)]
pub enum Response {
    Message(String),
    Value(Value),
}

/// A response as a mathematical value.
pub enum Reply {
    Message(Seq<char>),
    Value(Value),
}

impl View for Response {
    type V = Reply;

    open spec fn view(&self) -> Reply {
        match self {
            Response::Message(line) => Reply::Message(line@),
            Response::Value(value) => Reply::Value(*value),
        }
    }
}

impl Response {
    /// Whether there is nothing to show for the response: it is the `null`
    /// document, which answers a change that went well.
    pub fn is_silent(&self) -> (silent: bool)
        ensures
            silent == (self@ matches Reply::Value(v) && is_null(v)),
    {
        match self {
            Response::Value(value) => value_is_null(value),
            Response::Message(_) => false,
        }
    }
}

/// What the result of an operation says, as a mathematical value.
pub open spec fn outcome(r: Result<Response, DatabaseError>) -> Result<Reply, Failure> {
    match r {
        Ok(response) => Ok(response@),
        Err(e) => Err(e@),
    }
}

/// What the result of a saving says, as a mathematical value.
pub open spec fn saved(r: Result<Vec<(String, Vec<u8>)>, DatabaseError>) -> Result<
    Seq<(Seq<char>, Seq<u8>)>,
    Failure,
> {
    match r {
        Ok(files) => Ok(files.deep_view()),
        Err(e) => Err(e@),
    }
}

/// The place of the first table of the given name, if there is one.
pub open spec fn position(tables: Seq<Table>, name: Seq<char>) -> Option<int>
    decreases tables.len(),
{
    if tables.len() == 0 {
        None
    } else {
        match position(tables.drop_last(), name) {
            Some(i) => Some(i),
            None => if tables.last().name == name {
                Some(tables.len() - 1)
            } else {
                None
            },
        }
    }
}

/// `position` finds the first table of the name, and finds none only where
/// no table has the name.
pub proof fn lemma_position(tables: Seq<Table>, name: Seq<char>)
    ensures
        match position(tables, name) {
            Some(i) => 0 <= i < tables.len() && tables[i].name == name && forall|j: int|
                0 <= j < i ==> (#[trigger] tables[j]).name != name,
            None => forall|j: int| 0 <= j < tables.len() ==> (#[trigger] tables[j]).name != name,
        },
    decreases tables.len(),
{
    if tables.len() > 0 {
        let front = tables.drop_last();
        lemma_position(front, name);
        assert forall|j: int| 0 <= j < front.len() implies front[j] == tables[j] by {}
        match position(front, name) {
            Some(i) => {
                assert forall|j: int| 0 <= j < i implies (#[trigger] tables[j]).name != name by {
                    assert(front[j].name != name);
                }
            },
            None => {
                assert forall|j: int| 0 <= j < tables.len() - 1 implies (#[trigger] tables[j]).name
                    != name by {
                    assert(front[j].name != name);
                }
            },
        }
    }
}

/// The store as a mathematical value.
pub struct Store {
    /// The directory that the store lives in.
    pub path: Seq<char>,
    /// The account table.
    pub accounts: Registry,
    /// The collections, in the order in which they were made or loaded.
    pub tables: Seq<Table>,
    /// The place of the selected collection, if one is selected.
    pub selected: Option<int>,
    /// Who is logged in, if anybody is.
    pub session: Option<Identity>,
}

pub open spec fn login_required() -> Seq<char> {
    "Login to access the database"@
}

pub open spec fn guests_cannot_write() -> Seq<char> {
    "Guest permissions cannot write data"@
}

pub open spec fn select_first() -> Seq<char> {
    "Select a collection"@
}

impl Store {
    /// A selection always points at a collection that exists.
    pub open spec fn wf(self) -> bool {
        self.selected matches Some(i) ==> 0 <= i < self.tables.len()
    }

    /// The guard before every reading operation: somebody is logged in.
    pub open spec fn session_guard(self) -> Option<Failure> {
        if self.session is None {
            Some(Failure::UserError(login_required()))
        } else {
            None
        }
    }

    /// The guard before every operation that writes: somebody is logged in,
    /// with a permission above `Guest`.
    pub open spec fn write_guard(self) -> Option<Failure> {
        match self.session {
            None => Some(Failure::UserError(login_required())),
            Some(identity) => if identity.permissions.allows_writing() {
                None
            } else {
                Some(Failure::PermissionDenied(guests_cannot_write()))
            },
        }
    }

    /// The guard before a reading of the selected collection: somebody is
    /// logged in, and a collection is selected.
    pub open spec fn read_selected_guard(self) -> Option<Failure> {
        match self.session_guard() {
            Some(f) => Some(f),
            None => if self.selected is None {
                Some(Failure::CollectionError(select_first()))
            } else {
                None
            },
        }
    }

    /// The guard before a change of the selected collection: somebody is
    /// logged in with a permission above `Guest`, and a collection is
    /// selected.
    pub open spec fn write_selected_guard(self) -> Option<Failure> {
        match self.write_guard() {
            Some(f) => Some(f),
            None => if self.selected is None {
                Some(Failure::CollectionError(select_first()))
            } else {
                None
            },
        }
    }

    /// The store with the entries of the collection at `i` replaced.
    pub open spec fn with_entries(self, i: int, entries: Map<Seq<char>, Value>) -> Store {
        Store {
            tables: self.tables.update(i, Table { name: self.tables[i].name, entries }),
            ..self
        }
    }

    /// What `get` answers.
    pub open spec fn get(self, key: Seq<char>) -> Result<Reply, Failure> {
        match self.read_selected_guard() {
            Some(f) => Err(f),
            None => {
                let entries = self.tables[self.selected.unwrap()].entries;
                if entries.contains_key(key) {
                    Ok(Reply::Value(entries[key]))
                } else {
                    Err(Failure::ValueNotFound(key))
                }
            },
        }
    }

    /// The store after `select`, with what `select` answers.
    pub open spec fn select(self, name: Seq<char>) -> (Store, Result<Reply, Failure>) {
        match self.session_guard() {
            Some(f) => (self, Err(f)),
            None => match position(self.tables, name) {
                Some(i) => (
                    Store { selected: Some(i), ..self },
                    Ok(Reply::Message(name + " selected"@)),
                ),
                None => (self, Err(Failure::CollectionNotFound(name))),
            },
        }
    }

    /// The store after `new_collection`, with what `new_collection` answers.
    pub open spec fn new_collection(self, name: Seq<char>) -> (Store, Result<Reply, Failure>) {
        match self.write_guard() {
            Some(f) => (self, Err(f)),
            None => (
                Store { tables: self.tables.push(Table { name, entries: Map::empty() }), ..self },
                Ok(Reply::Message(name + " created"@)),
            ),
        }
    }

    /// What `which` answers.
    pub open spec fn which(self, topic: Seq<char>) -> Result<Reply, Failure> {
        match self.session_guard() {
            Some(f) => Err(f),
            None => if topic == "collection"@ {
                match self.selected {
                    Some(i) => Ok(Reply::Message(self.tables[i].name + " selected"@)),
                    None => Ok(Reply::Message("No collection selected"@)),
                }
            } else if topic == "path"@ {
                Ok(Reply::Message(self.path))
            } else if topic == "user"@ {
                Ok(Reply::Message(self.session.unwrap().user))
            } else {
                Err(Failure::ValueNotFound(topic + " invalid"@))
            },
        }
    }

    /// The store after a login of `username` with `password`, with the
    /// failure of the login where it does not succeed. A login that succeeds
    /// starts a session with a copy of the account's permissions, and leaves
    /// nothing selected.
    pub open spec fn login(self, username: Seq<char>, password: Seq<char>) -> (Store, Option<Failure>) {
        if self.accounts.accepts(username, password) {
            (
                Store {
                    accounts: Registry { current: Some(username), ..self.accounts },
                    selected: None,
                    session: Some(
                        Identity {
                            user: username,
                            permissions: self.accounts.users()[username].permissions,
                        },
                    ),
                    ..self
                },
                None,
            )
        } else {
            (self, Some(self.accounts.refusal(username)))
        }
    }

    /// The store after one record of the log is applied again, or the
    /// failure of a record that cannot be applied.
    ///
    /// The record's collection is selected. An insertion puts its document
    /// under its key and a deletion takes its key out, whether or not the key
    /// was there; a reading changes nothing more. A record fails with
    /// `CollectionNotFound` where the store has no collection of its name,
    /// and with `SyntaxError` where it stands for no command.
    pub open spec fn apply(self, record: Record) -> Result<Store, Failure> {
        match position(self.tables, record.collection) {
            None => Err(Failure::CollectionNotFound(record.collection)),
            Some(i) => {
                let at = Store { selected: Some(i), ..self };
                match record.request() {
                    Request::Insert(key, value) => Ok(
                        at.with_entries(i, self.tables[i].entries.insert(key, value)),
                    ),
                    Request::Delete(key) => Ok(at.with_entries(i, self.tables[i].entries.remove(key))),
                    Request::Get(_) => Ok(at),
                    _ => Err(Failure::SyntaxError("syntax error"@)),
                }
            },
        }
    }

    /// The store after the records of a log are applied again in order, up
    /// to the first that fails, together with that failure if there is one.
    pub open spec fn replay(self, records: Seq<Record>) -> (Store, Option<Failure>)
        decreases records.len(),
    {
        if records.len() == 0 {
            (self, None)
        } else {
            match self.apply(records.first()) {
                Ok(next) => next.replay(records.drop_first()),
                Err(f) => (self, Some(f)),
            }
        }
    }

    /// Whether `post`, `log_after` and `answer` are what a command may leave
    /// of this store and `log`: what the operation that the command names
    /// leaves. The error command leaves everything as it was and fails with
    /// `SyntaxError`.
    pub open spec fn operate(
        self,
        log: Seq<u8>,
        command: Request,
        post: Store,
        log_after: Seq<u8>,
        answer: Result<Reply, Failure>,
    ) -> bool {
        match command {
            Request::Insert(key, value) => self.insert(log, key, value, post, log_after, answer),
            Request::Get(key) => post == self && log_after == log && answer == self.get(key),
            Request::Delete(key) => self.delete(log, key, post, log_after, answer),
            Request::Select(name) => log_after == log && (post, answer) == self.select(name),
            Request::New(name) => log_after == log && (post, answer) == self.new_collection(name),
            Request::Which(topic) => post == self && log_after == log && answer == self.which(topic),
            Request::Error => post == self && log_after == log && answer == Err::<Reply, Failure>(
                Failure::SyntaxError("syntax error"@),
            ),
        }
    }

    /// The record that a command must leave in the log before it may change
    /// anything: one for an insertion and one for a deletion that pass their
    /// guards, none for any other command. An insertion or a deletion that
    /// its guards refuse has their failure instead, and so has an insertion
    /// of a document without a text.
    pub open spec fn pending_record(self, command: Request) -> Result<Option<Record>, Failure> {
        match command {
            Request::Insert(key, value) => match self.write_selected_guard() {
                Some(f) => Err(f),
                None => {
                    let record = Record::insertion(self.tables[self.selected.unwrap()].name, key, value);
                    if record.value is None {
                        Err(Failure::Other("incorrect json"@))
                    } else {
                        Ok(Some(record))
                    }
                },
            },
            Request::Delete(key) => match self.write_selected_guard() {
                Some(f) => Err(f),
                None => Ok(Some(Record::deletion(self.tables[self.selected.unwrap()].name, key))),
            },
            _ => Ok(None),
        }
    }

    /// Whether `post` and `answer` are what a command may leave of this
    /// store once its record is in the log: what the operation that the
    /// command names leaves of the store, the log apart.
    pub open spec fn applied(self, command: Request, post: Store, answer: Result<Reply, Failure>) -> bool {
        match command {
            Request::Insert(key, value) => match self.write_selected_guard() {
                Some(f) => post == self && answer == Err::<Reply, Failure>(f),
                None => {
                    let i = self.selected.unwrap();
                    &&& post == self.with_entries(i, self.tables[i].entries.insert(key, value))
                    &&& answer matches Ok(Reply::Value(v)) && is_null(v)
                },
            },
            Request::Delete(key) => match self.write_selected_guard() {
                Some(f) => post == self && answer == Err::<Reply, Failure>(f),
                None => {
                    let i = self.selected.unwrap();
                    let entries = self.tables[i].entries;
                    &&& post == self.with_entries(i, entries.remove(key))
                    &&& answer == (if entries.contains_key(key) {
                        Ok::<Reply, Failure>(Reply::Value(entries[key]))
                    } else {
                        Err::<Reply, Failure>(Failure::ValueNotFound(key))
                    })
                },
            },
            Request::Get(key) => post == self && answer == self.get(key),
            Request::Select(name) => (post, answer) == self.select(name),
            Request::New(name) => (post, answer) == self.new_collection(name),
            Request::Which(topic) => post == self && answer == self.which(topic),
            Request::Error => post == self && answer == Err::<Reply, Failure>(
                Failure::SyntaxError("syntax error"@),
            ),
        }
    }

    /// The files that `save_data` hands out for the tables: for each table
    /// the name of the collection and the bytes of its snapshot.
    pub open spec fn snapshots(self) -> Seq<(Seq<char>, Seq<u8>)> {
        self.tables.map_values(|t: Table| (t.name, t.bytes().unwrap()))
    }

    /// Every table has a snapshot that can be written.
    pub open spec fn snapshots_complete(self) -> bool {
        forall|i: int| 0 <= i < self.tables.len() ==> (#[trigger] self.tables[i]).bytes() is Some
    }

    /// Every table whose documents can all be read back has a snapshot that
    /// reads back.
    pub open spec fn snapshots_read_back(self) -> bool {
        forall|t: int|
            0 <= t < self.tables.len() && (#[trigger] self.tables[t]).readable()
                ==> self.tables[t].snapshot_reads_back()
    }

    /// Whether the table at `i` is the first whose snapshot cannot be
    /// written.
    pub open spec fn first_unwritten(self, i: int) -> bool {
        &&& 0 <= i < self.tables.len()
        &&& self.tables[i].bytes() is None
        &&& forall|j: int| 0 <= j < i ==> (#[trigger] self.tables[j]).bytes() is Some
    }

    /// Whether `f` is the failure of writing the tables out: that of the
    /// first table whose snapshot cannot be written, `Other` where one of its
    /// documents has no text and `SerializationError` otherwise.
    pub open spec fn is_snapshot_failure(self, f: Failure) -> bool {
        exists|i: int| #[trigger]
            self.first_unwritten(i) && if self.tables[i].texts_complete() {
                f is SerializationError
            } else {
                f == Failure::Other("incorrect json"@)
            }
    }

    /// Whether `post`, `log_after` and `answer` are what `save_data` may
    /// leave of this store and `log`.
    ///
    /// A failed guard leaves everything as it was. Otherwise the records of
    /// the log are applied again; a record that fails stops the saving, with
    /// the log as it was. Otherwise every collection is written out; where
    /// one cannot be, the saving fails with the log as it was. Only when all
    /// of this went well is the log emptied; nothing is selected then, and the
    /// answer holds the snapshot of each collection under its name. Those
    /// snapshots read back: each holds its collection with every document as
    /// its text reads.
    pub open spec fn save_data(
        self,
        log: Seq<u8>,
        post: Store,
        log_after: Seq<u8>,
        answer: Result<Seq<(Seq<char>, Seq<u8>)>, Failure>,
    ) -> bool {
        match self.write_guard() {
            Some(f) => post == self && log_after == log && answer == Err::<Seq<(Seq<char>, Seq<u8>)>, Failure>(f),
            None => {
                let (replayed, failure) = self.replay(records_in(log));
                match failure {
                    Some(f) => post == replayed && log_after == log && answer == Err::<
                        Seq<(Seq<char>, Seq<u8>)>,
                        Failure,
                    >(f),
                    None => if replayed.snapshots_complete() {
                        &&& post == (Store { selected: None, ..replayed })
                        &&& log_after == Seq::<u8>::empty()
                        &&& answer == Ok::<Seq<(Seq<char>, Seq<u8>)>, Failure>(replayed.snapshots())
                        &&& replayed.snapshots_read_back()
                    } else {
                        &&& post == replayed
                        &&& log_after == log
                        &&& answer matches Err(f) && replayed.is_snapshot_failure(f)
                    },
                }
            },
        }
    }

    /// The table that a snapshot file gives at loading: the one its bytes
    /// hold, or an empty one named after the file where they hold none.
    pub open spec fn loaded_table(file: (Seq<char>, Seq<u8>)) -> Table {
        match stored_table(file.1) {
            Some(table) => table,
            None => Table::empty(file.0),
        }
    }

    /// The store that the files of a directory stand for before the log is
    /// applied again: the tables of the snapshot files, the stored accounts,
    /// nothing selected and nobody logged in.
    pub open spec fn from_files(path: Seq<char>, snapshots: Seq<(Seq<char>, Seq<u8>)>, accounts: Registry) -> Store {
        Store {
            path,
            accounts,
            tables: snapshots.map_values(|file: (Seq<char>, Seq<u8>)| Store::loaded_table(file)),
            selected: None,
            session: None,
        }
    }

    /// Whether `post`, `log_after` and `answer` are what `insert` may leave
    /// of this store and `log`.
    ///
    /// A guard that fails, a document without a text and a record that cannot
    /// be written each leave everything as it was. Otherwise the log grows by
    /// the record of the insertion, which reads back from it; the selected
    /// collection holds the document under the key, and the answer is the
    /// `null` document.
    pub open spec fn insert(
        self,
        log: Seq<u8>,
        key: Seq<char>,
        value: Value,
        post: Store,
        log_after: Seq<u8>,
        answer: Result<Reply, Failure>,
    ) -> bool {
        match self.write_selected_guard() {
            Some(f) => post == self && log_after == log && answer == Err::<Reply, Failure>(f),
            None => {
                let i = self.selected.unwrap();
                let record = Record::insertion(self.tables[i].name, key, value);
                if record.value is None {
                    &&& post == self
                    &&& log_after == log
                    &&& answer == Err::<Reply, Failure>(Failure::Other("incorrect json"@))
                } else {
                    match record.bytes() {
                        None => {
                            &&& post == self
                            &&& log_after == log
                            &&& answer matches Err(Failure::SerializationError(_))
                        },
                        Some(bytes) => {
                            &&& post == self.with_entries(i, self.tables[i].entries.insert(key, value))
                            &&& log_after == log + bytes
                            &&& record.reads_back()
                            &&& answer matches Ok(Reply::Value(v)) && is_null(v)
                        },
                    }
                }
            },
        }
    }

    /// Whether `post`, `log_after` and `answer` are what `delete` may leave
    /// of this store and `log`.
    ///
    /// A guard that fails and a record that cannot be written each leave
    /// everything as it was. Otherwise the log grows by the record of the
    /// deletion, which reads back from it, and the key is gone from the
    /// selected collection; the answer is the document that the key held, or
    /// `ValueNotFound` where it held none.
    pub open spec fn delete(
        self,
        log: Seq<u8>,
        key: Seq<char>,
        post: Store,
        log_after: Seq<u8>,
        answer: Result<Reply, Failure>,
    ) -> bool {
        match self.write_selected_guard() {
            Some(f) => post == self && log_after == log && answer == Err::<Reply, Failure>(f),
            None => {
                let i = self.selected.unwrap();
                let entries = self.tables[i].entries;
                match Record::deletion(self.tables[i].name, key).bytes() {
                    None => {
                        &&& post == self
                        &&& log_after == log
                        &&& answer matches Err(Failure::SerializationError(_))
                    },
                    Some(bytes) => {
                        &&& post == self.with_entries(i, entries.remove(key))
                        &&& log_after == log + bytes
                        &&& Record::deletion(self.tables[i].name, key).reads_back()
                        &&& answer == (if entries.contains_key(key) {
                            Ok::<Reply, Failure>(Reply::Value(entries[key]))
                        } else {
                            Err::<Reply, Failure>(Failure::ValueNotFound(key))
                        })
                    },
                }
            },
        }
    }
}

/// The store: collections and accounts in memory, with the selection and the
/// session of the one reader it serves.
#[derive(Debug)]
pub struct Database {
    path: String,
    wal_manager: WALManager,
    auth_manager: AuthManager,
    collections: Vec<Collection>,
    state: DatabaseState,
    current_session: Option<Session>,
}

/// The tables that a sequence of collections stands for.
pub open spec fn tables_of(collections: Seq<Collection>) -> Seq<Table> {
    collections.map_values(|c: Collection| c@)
}

impl View for Database {
    type V = Store;

    closed spec fn view(&self) -> Store {
        Store {
            path: self.path@,
            accounts: self.auth_manager@,
            tables: tables_of(self.collections@),
            selected: match self.state {
                DatabaseState::SelectedCollection(i) => Some(i as int),
                DatabaseState::Unselected() => None,
            },
            session: match self.current_session {
                Some(session) => Some(session@),
                None => None,
            },
        }
    }
}

impl Database {
    #[verifier::type_invariant]
    spec fn well_formed(&self) -> bool {
        &&& self.state matches DatabaseState::SelectedCollection(i) ==> i < self.collections@.len()
        &&& self.wal_manager.path@ == self.path@
    }

    /// An empty store under the directory `path`: no collections, no
    /// accounts, nothing selected and nobody logged in.
    pub fn new(path: String) -> (db: Database)
        ensures
            db@.path == path@,
            db@.tables == Seq::<Table>::empty(),
            db@.accounts.accounts == Seq::<crate::auth::Account>::empty(),
            db@.accounts.current is None,
            db@.selected is None,
            db@.session is None,
            db@.wf(),
    {
        let db = Database {
            path: path.clone(),
            wal_manager: WALManager::new(path),
            auth_manager: AuthManager::new(),
            collections: Vec::new(),
            state: DatabaseState::Unselected(),
            current_session: None,
        };
        assert(tables_of(db.collections@) =~= Seq::<Table>::empty());
        db
    }

    /// The failure of the session guard, if it fails.
    fn check_session(&self) -> (r: Result<(), DatabaseError>)
        ensures
            match r {
                Ok(_) => self@.session_guard() is None,
                Err(e) => self@.session_guard() == Some(e@),
            },
    {
        if self.current_session.is_none() {
            Err(DatabaseError::UserError("Login to access the database".to_owned()))
        } else {
            Ok(())
        }
    }

    /// The failure of the write guard, if it fails.
    fn check_writer(&self) -> (r: Result<(), DatabaseError>)
        ensures
            match r {
                Ok(_) => self@.write_guard() is None,
                Err(e) => self@.write_guard() == Some(e@),
            },
    {
        match &self.current_session {
            None => Err(DatabaseError::UserError("Login to access the database".to_owned())),
            Some(session) => if session.permissions.can_write() {
                Ok(())
            } else {
                Err(DatabaseError::PermissionDenied("Guest permissions cannot write data".to_owned()))
            },
        }
    }

    /// The place of the first collection of the given name, if there is one.
    pub fn find_collection_by_name(&self, name: &String) -> (found: Option<usize>)
        ensures
            match found {
                Some(i) => position(self@.tables, name@) == Some(i as int),
                None => position(self@.tables, name@) is None,
            },
    {
        let mut i: usize = 0;
        while i < self.collections.len()
            invariant
                i <= self.collections@.len(),
                forall|j: int| 0 <= j < i ==> (#[trigger] tables_of(self.collections@)[j]).name != name@,
            decreases self.collections@.len() - i,
        {
            assert(tables_of(self.collections@)[i as int] == self.collections@[i as int]@);
            if *self.collections[i].name() == *name {
                proof {
                    lemma_position(self@.tables, name@);
                }
                return Some(i);
            }
            i += 1;
        }
        proof {
            lemma_position(self@.tables, name@);
        }
        None
    }

    /// Selects the first collection named `collection`.
    ///
    /// Fails with `UserError` where nobody is logged in, and with
    /// `CollectionNotFound` where no collection has the name; the store then
    /// stays as it was.
    pub fn select(&mut self, collection: String) -> (r: Result<Response, DatabaseError>)
        ensures
            (final(self)@, outcome(r)) == old(self)@.select(collection@),
            final(self)@.wf(),
    {
        proof {
            use_type_invariant(&*self);
        }
        match self.check_session() {
            Err(e) => {
                return Err(e);
            },
            Ok(_) => {},
        }
        match self.find_collection_by_name(&collection) {
            Some(index) => {
                proof {
                    lemma_position(self@.tables, collection@);
                }
                self.state = DatabaseState::SelectedCollection(index);
                Ok(Response::Message(joined(collection.as_str(), " selected")))
            },
            None => Err(DatabaseError::CollectionNotFound(collection)),
        }
    }

    /// The document under `key` in the selected collection.
    ///
    /// Fails with `UserError` where nobody is logged in, with
    /// `CollectionError` where no collection is selected, and with
    /// `ValueNotFound` where the collection lacks the key.
    pub fn get(&self, key: String) -> (r: Result<Response, DatabaseError>)
        ensures
            outcome(r) == self@.get(key@),
    {
        proof {
            use_type_invariant(self);
        }
        match self.check_session() {
            Err(e) => {
                return Err(e);
            },
            Ok(_) => {},
        }
        match self.state {
            DatabaseState::Unselected() => Err(DatabaseError::CollectionError("Select a collection".to_owned())),
            DatabaseState::SelectedCollection(index) => {
                let found = self.collections[index].get(key.clone());
                match found {
                    Some(value) => Ok(Response::Value(value)),
                    None => Err(DatabaseError::ValueNotFound(key)),
                }
            },
        }
    }

    /// Puts `value` under `key` in the selected collection.
    ///
    /// The guards come first: `UserError` where nobody is logged in,
    /// `PermissionDenied` for a guest, `CollectionError` where nothing is
    /// selected. Then the record of the insertion is appended to `log`, and
    /// only then is the collection changed. The answer is the `null`
    /// document. On any failure the store and the log stay as they were.
    pub fn insert(&mut self, key: String, value: Value, log: &mut Vec<u8>) -> (r: Result<
        Response,
        DatabaseError,
    >)
        ensures
            old(self)@.insert(old(log)@, key@, value, final(self)@, final(log)@, outcome(r)),
            final(self)@.wf(),
    {
        proof {
            use_type_invariant(&*self);
        }
        let command = Command::INSERT(key, value);
        match self.log_command(&command, log) {
            Err(e) => {
                return Err(e);
            },
            Ok(_) => {},
        }
        self.apply_logged(command)
    }

    /// Takes `key` out of the selected collection.
    ///
    /// The guards come first, as for `insert`. Then the record of the
    /// deletion is appended to `log`, and only then is the collection changed.
    /// The answer is the document that the key held; where it held none the
    /// record is still written and the answer is `ValueNotFound`. On a failed
    /// guard, and where the record cannot be written, the store and the log
    /// stay as they were.
    pub fn delete(&mut self, key: String, log: &mut Vec<u8>) -> (r: Result<Response, DatabaseError>)
        ensures
            old(self)@.delete(old(log)@, key@, final(self)@, final(log)@, outcome(r)),
            final(self)@.wf(),
    {
        proof {
            use_type_invariant(&*self);
        }
        let command = Command::DELETE(key);
        match self.log_command(&command, log) {
            Err(e) => {
                return Err(e);
            },
            Ok(_) => {},
        }
        self.apply_logged(command)
    }

    /// Appends a collection to the list. The list is taken out of the store
    /// while it grows, with nothing selected, so that the store is well
    /// formed at every step.
    fn push_collection(&mut self, collection: Collection)
        ensures
            final(self)@ == (Store { tables: old(self)@.tables.push(collection@), ..old(self)@ }),
    {
        proof {
            use_type_invariant(&*self);
        }
        let mut state = DatabaseState::Unselected();
        let mut collections: Vec<Collection> = Vec::new();
        core::mem::swap(&mut self.state, &mut state);
        core::mem::swap(&mut self.collections, &mut collections);
        assert(tables_of(collections@.push(collection)) =~= tables_of(collections@).push(collection@));
        collections.push(collection);
        core::mem::swap(&mut self.collections, &mut collections);
        core::mem::swap(&mut self.state, &mut state);
    }

    /// Makes an empty collection named `name`, behind the others.
    ///
    /// Fails with `UserError` where nobody is logged in and with
    /// `PermissionDenied` for a guest; the store then stays as it was.
    pub fn new_collection(&mut self, name: &String) -> (r: Result<Response, DatabaseError>)
        ensures
            (final(self)@, outcome(r)) == old(self)@.new_collection(name@),
            final(self)@.wf(),
    {
        proof {
            use_type_invariant(&*self);
        }
        match self.check_writer() {
            Err(e) => {
                return Err(e);
            },
            Ok(_) => {},
        }
        self.push_collection(Collection::new(name.clone()));
        Ok(Response::Message(joined(name.as_str(), " created")))
    }

    /// Answers a question about the store: `collection` for the selected
    /// collection, `path` for the store's directory, `user` for who is
    /// logged in.
    ///
    /// Fails with `UserError` where nobody is logged in, and with
    /// `ValueNotFound` for any other question.
    pub fn which(&self, key: String) -> (r: Result<Response, DatabaseError>)
        ensures
            outcome(r) == self@.which(key@),
    {
        proof {
            use_type_invariant(self);
        }
        let session = match &self.current_session {
            None => {
                return Err(DatabaseError::UserError("Login to access the database".to_owned()));
            },
            Some(session) => session,
        };
        if key == "collection".to_owned() {
            match self.state {
                DatabaseState::SelectedCollection(index) => {
                    assert(tables_of(self.collections@)[index as int] == self.collections@[index as int]@);
                    Ok(Response::Message(joined(self.collections[index].name().as_str(), " selected")))
                },
                DatabaseState::Unselected() => Ok(Response::Message("No collection selected".to_owned())),
            }
        } else if key == "path".to_owned() {
            Ok(Response::Message(self.path.clone()))
        } else if key == "user".to_owned() {
            Ok(Response::Message(session.user.clone()))
        } else {
            Err(DatabaseError::ValueNotFound(joined(key.as_str(), " invalid")))
        }
    }

    /// Logs `username` in with `password`.
    ///
    /// Succeeds exactly when the account table has the name and the password
    /// is accepted for the stored hash. The session of the store is then the
    /// new one, and nothing is selected. On failure the store stays as it
    /// was, and the failure is a `UserError` that says whether the name or the
    /// password was wrong.
    pub fn login(&mut self, username: String, password: String) -> (r: Result<(), DatabaseError>)
        ensures
            final(self)@ == old(self)@.login(username@, password@).0,
            match r {
                Ok(_) => old(self)@.login(username@, password@).1 is None,
                Err(e) => old(self)@.login(username@, password@).1 == Some(e@),
            },
            final(self)@.wf(),
    {
        proof {
            use_type_invariant(&*self);
        }
        let mut accounts = AuthManager::new();
        core::mem::swap(&mut self.auth_manager, &mut accounts);
        let answer = accounts.login(username, password);
        core::mem::swap(&mut self.auth_manager, &mut accounts);
        match answer {
            Ok(session) => {
                self.current_session = Some(session);
                self.state = DatabaseState::Unselected();
                Ok(())
            },
            Err(e) => Err(e),
        }
    }

    /// Makes an account, and returns the bytes of the account table's new
    /// snapshot. Nobody needs to be logged in for this.
    ///
    /// What happens to the account table, and what comes back, is what
    /// `AuthManager::new_user` says: a name is taken once, and an account
    /// that was made holds a hash that accepts the password. Nothing else of
    /// the store changes.
    pub fn new_user(&mut self, username: &String, password: &String, permissions: Permissions) -> (r:
        Result<Vec<u8>, DatabaseError>)
        ensures
            final(self)@ == (Store { accounts: final(self)@.accounts, ..old(self)@ }),
            final(self)@.wf(),
            final(self)@.accounts.wf(),
            old(self)@.accounts.users().contains_key(username@) ==> {
                &&& final(self)@ == old(self)@
                &&& r matches Err(e) && e@ == Failure::UserError("Username already taken"@)
            },
            !old(self)@.accounts.users().contains_key(username@) ==> {
                ||| {
                    &&& final(self)@ == old(self)@
                    &&& r matches Err(e) && e@ is Other
                }
                ||| {
                    &&& final(self)@.accounts == old(self)@.accounts.with_account(
                        crate::auth::Account {
                            username: username@,
                            password_hash: final(self)@.accounts.accounts.last().password_hash,
                            permissions,
                        },
                    )
                    &&& crate::auth::password_matches(
                        password@,
                        final(self)@.accounts.accounts.last().password_hash,
                    )
                    &&& final(self)@.accounts.accepts(username@, password@)
                    &&& match r {
                        Ok(bytes) => final(self)@.accounts.bytes() == Some(bytes@),
                        Err(e) => final(self)@.accounts.bytes() is None && e@ is SerializationError,
                    }
                }
            },
    {
        proof {
            use_type_invariant(&*self);
        }
        let mut accounts = AuthManager::new();
        core::mem::swap(&mut self.auth_manager, &mut accounts);
        let answer = accounts.new_user(username, password, permissions);
        core::mem::swap(&mut self.auth_manager, &mut accounts);
        answer
    }

    /// Applies one record of the log again.
    fn apply_entry(&mut self, entry: &WALEntry) -> (r: Result<(), DatabaseError>)
        ensures
            match old(self)@.apply(entry@) {
                Ok(next) => r is Ok && final(self)@ == next,
                Err(f) => final(self)@ == old(self)@ && (r matches Err(e) && e@ == f),
            },
    {
        proof {
            use_type_invariant(&*self);
            lemma_position(self@.tables, entry@.collection);
        }
        let index = match self.find_collection_by_name(&entry.collection) {
            Some(index) => index,
            None => {
                return Err(DatabaseError::CollectionNotFound(entry.collection.clone()));
            },
        };
        assert(tables_of(self.collections@)[index as int] == self.collections@[index as int]@);
        let ghost before = self.collections@;
        match entry.convert_to_operation() {
            Command::INSERT(key, value) => {
                self.state = DatabaseState::SelectedCollection(index);
                self.collections[index].insert(key, value);
                assert(tables_of(self.collections@) =~= tables_of(before).update(
                    index as int,
                    Table {
                        name: tables_of(before)[index as int].name,
                        entries: tables_of(before)[index as int].entries.insert(key@, value),
                    },
                ));
                Ok(())
            },
            Command::DELETE(key) => {
                self.state = DatabaseState::SelectedCollection(index);
                self.collections[index].delete(key);
                assert(tables_of(self.collections@) =~= tables_of(before).update(
                    index as int,
                    Table {
                        name: tables_of(before)[index as int].name,
                        entries: tables_of(before)[index as int].entries.remove(key@),
                    },
                ));
                Ok(())
            },
            Command::GET(_) => {
                self.state = DatabaseState::SelectedCollection(index);
                Ok(())
            },
            _ => Err(DatabaseError::SyntaxError("syntax error".to_owned())),
        }
    }

    /// Applies the records of a log again, in order, up to the first that
    /// fails. The log itself is only read.
    fn replay_log(&mut self, log: &[u8]) -> (r: Result<(), DatabaseError>)
        ensures
            final(self)@ == old(self)@.replay(records_in(log@)).0,
            match r {
                Ok(_) => old(self)@.replay(records_in(log@)).1 is None,
                Err(e) => old(self)@.replay(records_in(log@)).1 == Some(e@),
            },
    {
        let entries = match self.wal_manager.read_wal_log(log) {
            Ok(entries) => entries,
            Err(e) => {
                return Err(e);
            },
        };
        let ghost records = entries.deep_view();
        let ghost start = self@;
        let mut i: usize = 0;
        assert(records.skip(0) =~= records);
        while i < entries.len()
            invariant
                i <= entries@.len(),
                records == entries.deep_view(),
                records == records_in(log@),
                start == old(self)@,
                start.replay(records) == self@.replay(records.skip(i as int)),
            decreases entries@.len() - i,
        {
            assert(records.skip(i as int).len() > 0);
            assert(records.skip(i as int).first() == entries@[i as int]@);
            assert(records.skip(i as int).drop_first() =~= records.skip(i + 1));
            match self.apply_entry(&entries[i]) {
                Ok(_) => {},
                Err(e) => {
                    return Err(e);
                },
            }
            i += 1;
        }
        Ok(())
    }

    /// Folds the log into the collections, and then empties it.
    ///
    /// The records of the log are applied again in order. Only where every
    /// one of them could be applied is the log emptied. Where one fails, the
    /// failure is returned, the records before it stay applied, and the log
    /// stays as it was.
    pub fn write_and_clear_wal_log(&mut self, log: &mut Vec<u8>) -> (r: Result<(), DatabaseError>)
        ensures
            final(self)@ == old(self)@.replay(records_in(old(log)@)).0,
            match r {
                Ok(_) => old(self)@.replay(records_in(old(log)@)).1 is None && final(log)@
                    == Seq::<u8>::empty(),
                Err(e) => old(self)@.replay(records_in(old(log)@)).1 == Some(e@) && final(log)@ == old(
                    log,
                )@,
            },
            final(self)@.wf(),
    {
        match self.replay_log(log.as_slice()) {
            Ok(_) => {
                log.clear();
                proof {
                    use_type_invariant(&*self);
                }
                Ok(())
            },
            Err(e) => {
                proof {
                    use_type_invariant(&*self);
                }
                Err(e)
            },
        }
    }

    /// Runs a command: the operation that it names, with its arguments, in
    /// its two phases. The record of a change is appended to `log` first, and
    /// only then is anything changed. The error command always fails with
    /// `SyntaxError` and changes nothing.
    pub fn operate_db(&mut self, command: Command, log: &mut Vec<u8>) -> (r: Result<
        Response,
        DatabaseError,
    >)
        ensures
            old(self)@.operate(old(log)@, command@, final(self)@, final(log)@, outcome(r)),
            final(self)@.wf(),
    {
        proof {
            use_type_invariant(&*self);
        }
        match self.log_command(&command, log) {
            Err(e) => {
                return Err(e);
            },
            Ok(_) => {},
        }
        self.apply_logged(command)
    }

    /// Saves the store: folds the log into the collections, writes every
    /// collection out, and empties the log.
    ///
    /// Fails with `UserError` where nobody is logged in and with
    /// `PermissionDenied` for a guest. The log is emptied only after all
    /// its records were applied and every snapshot was written; until then
    /// it stays as it was. After a saving that succeeds nothing is selected,
    /// and the answer holds, for each collection in order, its name and the
    /// bytes of its snapshot.
    pub fn save_data(&mut self, log: &mut Vec<u8>) -> (r: Result<Vec<(String, Vec<u8>)>, DatabaseError>)
        ensures
            old(self)@.save_data(old(log)@, final(self)@, final(log)@, saved(r)),
            final(self)@.wf(),
    {
        proof {
            use_type_invariant(&*self);
        }
        match self.check_writer() {
            Err(e) => {
                return Err(e);
            },
            Ok(_) => {},
        }
        match self.replay_log(log.as_slice()) {
            Err(e) => {
                proof {
                    use_type_invariant(&*self);
                }
                return Err(e);
            },
            Ok(_) => {},
        }
        proof {
            use_type_invariant(&*self);
        }
        let ghost replayed = self@;
        let mut files: Vec<(String, Vec<u8>)> = Vec::new();
        let mut i: usize = 0;
        while i < self.collections.len()
            invariant
                i <= self.collections@.len(),
                self@ == replayed,
                self@.wf(),
                log@ == old(log)@,
                old(self)@.write_guard() is None,
                old(self)@.replay(records_in(old(log)@)) == (replayed, None::<Failure>),
                forall|j: int| 0 <= j < i ==> (#[trigger] replayed.tables[j]).bytes() is Some,
                forall|j: int|
                    0 <= j < i && (#[trigger] replayed.tables[j]).readable()
                        ==> replayed.tables[j].snapshot_reads_back(),
                files.deep_view() =~= replayed.snapshots().take(i as int),
            decreases self.collections@.len() - i,
        {
            assert(tables_of(self.collections@)[i as int] == self.collections@[i as int]@);
            let bytes = match self.collections[i].to_bytes() {
                Ok(bytes) => bytes,
                Err(e) => {
                    assert(replayed.first_unwritten(i as int));
                    return Err(e);
                },
            };
            let file = (self.collections[i].name().clone(), bytes);
            let ghost before = files.deep_view();
            assert(file.1.deep_view() =~= file.1@);
            assert(file.deep_view() == replayed.snapshots()[i as int]);
            files.push(file);
            assert(files.deep_view() =~= before.push(replayed.snapshots()[i as int]));
            i += 1;
        }
        assert(replayed.snapshots().take(i as int) =~= replayed.snapshots());
        log.clear();
        self.state = DatabaseState::Unselected();
        Ok(files)
    }

    /// Builds the store from the files of its directory: the snapshot of each
    /// collection, given with the name of its file, the snapshot of the
    /// account table, and the log.
    ///
    /// A snapshot that cannot be read gives an empty collection named after
    /// its file. The account table must be readable: the loading fails with
    /// `SerializationError` where it is not. The store starts with nothing
    /// selected and nobody logged in; then the records of the log are applied
    /// again, and the log is emptied. Where a record fails, the loading fails
    /// with its failure and the log stays as it was.
    pub fn load_data(path: String, snapshots: Vec<(String, Vec<u8>)>, users: &[u8], log: &mut Vec<u8>) -> (r:
        Result<Database, DatabaseError>)
        ensures
            match stored_registry(users@) {
                None => final(log)@ == old(log)@ && (r matches Err(e) && e@ is SerializationError),
                Some(accounts) => {
                    let start = Store::from_files(path@, snapshots.deep_view(), accounts);
                    match start.replay(records_in(old(log)@)).1 {
                        None => {
                            &&& final(log)@ == Seq::<u8>::empty()
                            &&& r matches Ok(db) && db@ == start.replay(records_in(old(log)@)).0 && db@.wf()
                        },
                        Some(f) => final(log)@ == old(log)@ && (r matches Err(e) && e@ == f),
                    }
                },
            },
    {
        let mut collections: Vec<Collection> = Vec::new();
        let ghost files = snapshots.deep_view();
        let ghost tables = files.map_values(|file: (Seq<char>, Seq<u8>)| Store::loaded_table(file));
        let mut i: usize = 0;
        while i < snapshots.len()
            invariant
                i <= snapshots@.len(),
                files == snapshots.deep_view(),
                tables == files.map_values(|file: (Seq<char>, Seq<u8>)| Store::loaded_table(file)),
                tables_of(collections@) =~= tables.take(i as int),
            decreases snapshots@.len() - i,
        {
            let file = &snapshots[i];
            assert(files[i as int] == file.deep_view());
            assert(file.1.deep_view() =~= file.1@);
            let collection = match Collection::from_bytes(file.1.as_slice()) {
                Ok(collection) => collection,
                Err(_) => Collection::new(file.0.clone()),
            };
            assert(collection@ == tables[i as int]);
            assert(tables_of(collections@.push(collection)) =~= tables_of(collections@).push(collection@));
            collections.push(collection);
            i += 1;
        }
        assert(tables.take(i as int) =~= tables);
        let auth_manager = match AuthManager::from_bytes(users) {
            Ok(manager) => manager,
            Err(e) => {
                return Err(e);
            },
        };
        let mut database = Database {
            path: path.clone(),
            wal_manager: WALManager::new(path),
            auth_manager,
            collections,
            state: DatabaseState::Unselected(),
            current_session: None,
        };
        match database.replay_log(log.as_slice()) {
            Ok(_) => {
                log.clear();
                proof {
                    use_type_invariant(&database);
                }
                Ok(database)
            },
            Err(e) => Err(e),
        }
    }

    /// The first of the two phases of a command: appends to `log` the record
    /// that the command must leave there before it may change anything. The
    /// store itself is only read.
    ///
    /// An insertion or a deletion that passes its guards leaves its record,
    /// which reads back from the log; one that its guards refuse fails as the
    /// operation itself would, and so does an insertion of a document without
    /// a text. A record that cannot be written fails with
    /// `SerializationError`. Any other command leaves nothing and succeeds.
    /// On every failure the log stays as it was.
    pub fn log_command(&self, command: &Command, log: &mut Vec<u8>) -> (r: Result<(), DatabaseError>)
        ensures
            match self@.pending_record(command@) {
                Err(f) => final(log)@ == old(log)@ && (r matches Err(e) && e@ == f),
                Ok(None) => final(log)@ == old(log)@ && r is Ok,
                Ok(Some(record)) => match record.bytes() {
                    Some(bytes) => final(log)@ == old(log)@ + bytes && record.reads_back() && r is Ok,
                    None => final(log)@ == old(log)@ && (r matches Err(e) && e@ is SerializationError),
                },
            },
    {
        proof {
            use_type_invariant(self);
        }
        let entry = match command {
            Command::INSERT(key, value) => {
                match self.check_writer() {
                    Err(e) => {
                        return Err(e);
                    },
                    Ok(_) => {},
                }
                match self.state {
                    DatabaseState::Unselected() => {
                        return Err(DatabaseError::CollectionError("Select a collection".to_owned()));
                    },
                    DatabaseState::SelectedCollection(index) => {
                        assert(tables_of(self.collections@)[index as int] == self.collections@[index as int]@);
                        let entry = WALEntry::new(
                            self.collections[index].name().clone(),
                            "INSERT".to_owned(),
                            key.clone(),
                            Some(value_clone(value)),
                        );
                        if entry.value.is_none() {
                            return Err(DatabaseError::Other("incorrect json".to_owned()));
                        }
                        entry
                    },
                }
            },
            Command::DELETE(key) => {
                match self.check_writer() {
                    Err(e) => {
                        return Err(e);
                    },
                    Ok(_) => {},
                }
                match self.state {
                    DatabaseState::Unselected() => {
                        return Err(DatabaseError::CollectionError("Select a collection".to_owned()));
                    },
                    DatabaseState::SelectedCollection(index) => {
                        assert(tables_of(self.collections@)[index as int] == self.collections@[index as int]@);
                        WALEntry::new(
                            self.collections[index].name().clone(),
                            "DELETE".to_owned(),
                            key.clone(),
                            None,
                        )
                    },
                }
            },
            _ => {
                return Ok(());
            },
        };
        entry.log(log)
    }

    /// The second of the two phases of a command: does what the command
    /// names, once its record is in the log. Nothing is written to any log
    /// here.
    ///
    /// The guards stand before every change as they do in `operate_db`, and
    /// the answer is the one that `operate_db` gives.
    pub fn apply_logged(&mut self, command: Command) -> (r: Result<Response, DatabaseError>)
        ensures
            old(self)@.applied(command@, final(self)@, outcome(r)),
            final(self)@.wf(),
    {
        proof {
            use_type_invariant(&*self);
        }
        match command {
            Command::INSERT(key, value) => {
                match self.check_writer() {
                    Err(e) => {
                        return Err(e);
                    },
                    Ok(_) => {},
                }
                match self.state {
                    DatabaseState::Unselected() => Err(
                        DatabaseError::CollectionError("Select a collection".to_owned()),
                    ),
                    DatabaseState::SelectedCollection(index) => {
                        let ghost before = self.collections@;
                        self.collections[index].insert(key, value);
                        assert(tables_of(self.collections@) =~= tables_of(before).update(
                            index as int,
                            Table {
                                name: tables_of(before)[index as int].name,
                                entries: tables_of(before)[index as int].entries.insert(key@, value),
                            },
                        ));
                        Ok(Response::Value(null_value()))
                    },
                }
            },
            Command::DELETE(key) => {
                match self.check_writer() {
                    Err(e) => {
                        return Err(e);
                    },
                    Ok(_) => {},
                }
                match self.state {
                    DatabaseState::Unselected() => Err(
                        DatabaseError::CollectionError("Select a collection".to_owned()),
                    ),
                    DatabaseState::SelectedCollection(index) => {
                        let ghost before = self.collections@;
                        let removed = self.collections[index].delete(key.clone());
                        assert(tables_of(self.collections@) =~= tables_of(before).update(
                            index as int,
                            Table {
                                name: tables_of(before)[index as int].name,
                                entries: tables_of(before)[index as int].entries.remove(key@),
                            },
                        ));
                        match removed {
                            Some(value) => Ok(Response::Value(value)),
                            None => Err(DatabaseError::ValueNotFound(key)),
                        }
                    },
                }
            },
            Command::GET(key) => self.get(key),
            Command::SELECT(name) => self.select(name),
            Command::NEW(name) => self.new_collection(&name),
            Command::WHICH(topic) => self.which(topic),
            Command::ERROR() => Err(DatabaseError::SyntaxError("syntax error".to_owned())),
        }
    }
}

} // verus!
