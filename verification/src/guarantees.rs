//! What holds of the store across operations: theorems over the mathematical
//! values that the operations' contracts speak of.

use crate::auth::{lemma_last_account_is_found, password_matches, Account, Permissions, Registry};
use crate::collections::{read_back, readable, stable, Table};
use crate::database::{guests_cannot_write, position, select_first, Reply, Store};
use crate::errors::Failure;
use crate::session::Identity;
use crate::wal::{holds_exactly, lemma_log_grows, lemma_log_reads_back, records_in, Record};
use serde_json::Value;
use vstd::prelude::*;

verus! {

/// After an insertion that succeeded, reading the key gives the document
/// that was inserted.
pub proof fn insert_then_get(
    pre: Store,
    log: Seq<u8>,
    key: Seq<char>,
    value: Value,
    post: Store,
    log_after: Seq<u8>,
    answer: Result<Reply, Failure>,
)
    requires
        pre.wf(),
        pre.insert(log, key, value, post, log_after, answer),
        answer is Ok,
    ensures
        post.get(key) == Ok::<Reply, Failure>(Reply::Value(value)),
{
}

/// After a deletion that was carried out, reading the key fails with
/// `ValueNotFound`. A deletion is carried out where it answers with a
/// document or with `ValueNotFound`; any other answer means that a guard
/// refused it or that its record could not be written.
pub proof fn delete_then_get(
    pre: Store,
    log: Seq<u8>,
    key: Seq<char>,
    post: Store,
    log_after: Seq<u8>,
    answer: Result<Reply, Failure>,
)
    requires
        pre.wf(),
        pre.delete(log, key, post, log_after, answer),
        answer is Ok || answer matches Err(Failure::ValueNotFound(_)),
    ensures
        post.get(key) == Err::<Reply, Failure>(Failure::ValueNotFound(key)),
{
}

/// An insertion that succeeded grows the log by exactly the record of the
/// insertion, and a deletion that was carried out by exactly the record of the
/// deletion: the record is in the log whenever the collection has changed.
pub proof fn changes_are_logged(
    pre: Store,
    log: Seq<u8>,
    key: Seq<char>,
    value: Value,
    post: Store,
    log_after: Seq<u8>,
    answer: Result<Reply, Failure>,
)
    requires
        pre.wf(),
    ensures
        pre.insert(log, key, value, post, log_after, answer) && post != pre ==> log_after == log
            + Record::insertion(pre.tables[pre.selected.unwrap()].name, key, value).bytes().unwrap(),
        pre.delete(log, key, post, log_after, answer) && post != pre ==> log_after == log
            + Record::deletion(pre.tables[pre.selected.unwrap()].name, key).bytes().unwrap(),
{
}

/// For a guest, `insert`, `delete`, `new_collection` and `save_data` fail
/// with `PermissionDenied` and change nothing, while `get` answers as it does
/// for any other session.
pub proof fn guests_only_read(
    pre: Store,
    log: Seq<u8>,
    key: Seq<char>,
    value: Value,
    name: Seq<char>,
    post: Store,
    log_after: Seq<u8>,
    answer: Result<Reply, Failure>,
    files: Result<Seq<(Seq<char>, Seq<u8>)>, Failure>,
    other: Identity,
)
    requires
        pre.session matches Some(identity) && identity.permissions == Permissions::Guest(),
    ensures
        pre.insert(log, key, value, post, log_after, answer) ==> post == pre && log_after == log && answer
            == Err::<Reply, Failure>(Failure::PermissionDenied(guests_cannot_write())),
        pre.delete(log, key, post, log_after, answer) ==> post == pre && log_after == log && answer == Err::<
            Reply,
            Failure,
        >(Failure::PermissionDenied(guests_cannot_write())),
        pre.new_collection(name) == (
            pre,
            Err::<Reply, Failure>(Failure::PermissionDenied(guests_cannot_write())),
        ),
        pre.save_data(log, post, log_after, files) ==> post == pre && log_after == log && files == Err::<
            Seq<(Seq<char>, Seq<u8>)>,
            Failure,
        >(Failure::PermissionDenied(guests_cannot_write())),
        pre.get(key) == (Store { session: Some(other), ..pre }).get(key),
        pre.wf() && pre.selected.is_some() && pre.tables[pre.selected.unwrap()].entries.contains_key(key)
            ==> pre.get(key) == Ok::<Reply, Failure>(
            Reply::Value(pre.tables[pre.selected.unwrap()].entries[key]),
        ),
{
}

/// A login with a password that the stored hash does not accept fails with
/// `UserError` and changes nothing; a login with one that it accepts starts a
/// session with the permissions of the stored account.
pub proof fn login_checks_the_password(pre: Store, username: Seq<char>, password: Seq<char>)
    requires
        pre.accounts.users().contains_key(username),
    ensures
        !password_matches(password, pre.accounts.users()[username].password_hash) ==> pre.login(
            username,
            password,
        ) == (pre, Some(Failure::UserError("Incorrect Password"@))),
        password_matches(password, pre.accounts.users()[username].password_hash) ==> {
            &&& pre.login(username, password).1 is None
            &&& pre.login(username, password).0.session == Some(
                Identity { user: username, permissions: pre.accounts.users()[username].permissions },
            )
            &&& pre.login(username, password).0.accounts.accounts == pre.accounts.accounts
        },
{
}

/// An account that is made with a hash that accepts the password lets its
/// owner in: a login under its name with that password then succeeds, with
/// the permissions that the account was given.
pub proof fn new_account_can_log_in(pre: Store, account: Account, password: Seq<char>)
    requires
        password_matches(password, account.password_hash),
    ensures
        ({
            let made = Store { accounts: pre.accounts.with_account(account), ..pre };
            &&& made.login(account.username, password).1 is None
            &&& made.login(account.username, password).0.session == Some(
                Identity { user: account.username, permissions: account.permissions },
            )
        }),
{
    lemma_last_account_is_found(pre.accounts.accounts, account);
}

/// The two phases of a command make the whole operation: where the first
/// phase left the command's record in the log, or had none to leave, and the
/// second phase then did what the command names, store, log and answer are
/// what `operate_db` leaves. So the record can be put on disk between the
/// two, before anything has changed.
pub proof fn two_phases_make_the_operation(
    pre: Store,
    log: Seq<u8>,
    command: crate::parser::Request,
    post: Store,
    log_after: Seq<u8>,
    answer: Result<Reply, Failure>,
)
    requires
        pre.wf(),
        match pre.pending_record(command) {
            Ok(Some(record)) => record.reads_back() && log_after == log + record.bytes().unwrap(),
            Ok(None) => log_after == log,
            Err(_) => false,
        },
        pre.applied(command, post, answer),
    ensures
        pre.operate(log, command, post, log_after, answer),
{
}

/// Where the first phase of a command fails, the operation fails in the
/// same way and changes nothing, unless it is a record that cannot be
/// written that failed.
pub proof fn a_refused_record_is_a_refused_operation(
    pre: Store,
    log: Seq<u8>,
    command: crate::parser::Request,
    post: Store,
    log_after: Seq<u8>,
    answer: Result<Reply, Failure>,
)
    requires
        pre.pending_record(command) is Err,
        pre.operate(log, command, post, log_after, answer),
    ensures
        post == pre,
        log_after == log,
        answer == Err::<Reply, Failure>(pre.pending_record(command)->Err_0),
{
}

/// The error command always fails with `SyntaxError`, and leaves the store
/// and the log as they were, whoever is logged in and whatever is selected.
pub proof fn error_command_is_a_syntax_error(
    pre: Store,
    log: Seq<u8>,
    post: Store,
    log_after: Seq<u8>,
    answer: Result<Reply, Failure>,
)
    requires
        pre.operate(log, crate::parser::Request::Error, post, log_after, answer),
    ensures
        post == pre,
        log_after == log,
        answer matches Err(Failure::SyntaxError(_)),
{
}

/// A login under a name that the account table lacks fails with `UserError`
/// and changes nothing, whatever the password.
pub proof fn login_needs_an_account(pre: Store, username: Seq<char>, password: Seq<char>)
    requires
        !pre.accounts.users().contains_key(username),
    ensures
        pre.login(username, password) == (pre, Some(Failure::UserError("User not found"@))),
{
}

/// While nothing is selected, `get`, `insert` and `delete` fail with
/// `CollectionError` and change nothing, for whoever may otherwise do them.
pub proof fn nothing_selected_nothing_done(
    pre: Store,
    log: Seq<u8>,
    key: Seq<char>,
    value: Value,
    post: Store,
    log_after: Seq<u8>,
    answer: Result<Reply, Failure>,
)
    requires
        pre.selected is None,
    ensures
        pre.session_guard() is None ==> pre.get(key) == Err::<Reply, Failure>(
            Failure::CollectionError(select_first()),
        ),
        pre.write_guard() is None && pre.insert(log, key, value, post, log_after, answer) ==> post == pre
            && log_after == log && answer == Err::<Reply, Failure>(Failure::CollectionError(select_first())),
        pre.write_guard() is None && pre.delete(log, key, post, log_after, answer) ==> post == pre
            && log_after == log && answer == Err::<Reply, Failure>(Failure::CollectionError(select_first())),
{
}

/// While nobody is logged in, every operation on collections fails with
/// `UserError` and changes nothing.
pub proof fn nobody_logged_in_nothing_done(
    pre: Store,
    log: Seq<u8>,
    key: Seq<char>,
    value: Value,
    name: Seq<char>,
    post: Store,
    log_after: Seq<u8>,
    answer: Result<Reply, Failure>,
)
    requires
        pre.session is None,
    ensures
        pre.get(key) is Err && pre.get(key)->Err_0 is UserError,
        pre.which(key) is Err && pre.which(key)->Err_0 is UserError,
        pre.select(name).0 == pre && pre.select(name).1 is Err && pre.select(name).1->Err_0 is UserError,
        pre.new_collection(name).0 == pre && pre.new_collection(name).1 is Err && pre.new_collection(
            name,
        ).1->Err_0 is UserError,
        pre.insert(log, key, value, post, log_after, answer) ==> post == pre && log_after == log && answer
            is Err && answer->Err_0 is UserError,
        pre.delete(log, key, post, log_after, answer) ==> post == pre && log_after == log && answer is Err
            && answer->Err_0 is UserError,
{
}

/// Selecting a name that no collection has fails with `CollectionNotFound`
/// and leaves the store, and with it the selection, as it was. Selecting a
/// name that a collection has selects the first collection of that name.
pub proof fn select_finds_or_refuses(pre: Store, name: Seq<char>)
    requires
        pre.session is Some,
    ensures
        position(pre.tables, name) is None ==> pre.select(name) == (
            pre,
            Err::<Reply, Failure>(Failure::CollectionNotFound(name)),
        ),
        position(pre.tables, name) matches Some(i) ==> {
            &&& pre.select(name).1 is Ok
            &&& pre.select(name).0.selected == Some(i)
            &&& 0 <= i < pre.tables.len() && pre.tables[i].name == name
        },
{
    crate::database::lemma_position(pre.tables, name);
}

/// No operation makes a selection that points at no collection: a store that
/// is well formed stays so under every command.
pub proof fn commands_keep_the_selection_sound(
    pre: Store,
    log: Seq<u8>,
    command: crate::parser::Request,
    post: Store,
    log_after: Seq<u8>,
    answer: Result<Reply, Failure>,
)
    requires
        pre.wf(),
        pre.operate(log, command, post, log_after, answer),
    ensures
        post.wf(),
{
    match command {
        crate::parser::Request::Select(name) => {
            crate::database::lemma_position(pre.tables, name);
        },
        _ => {},
    }
}

/// The tables after `value` was put under `key` in the table at `i`.
pub open spec fn put(tables: Seq<Table>, i: int, key: Seq<char>, value: Value) -> Seq<Table> {
    tables.update(i, Table { name: tables[i].name, entries: tables[i].entries.insert(key, value) })
}

/// The tables after each document of `pairs` was put under its key in the
/// table at `i`, in order.
pub open spec fn put_all(tables: Seq<Table>, i: int, pairs: Seq<(Seq<char>, Value)>) -> Seq<Table>
    decreases pairs.len(),
{
    if pairs.len() == 0 {
        tables
    } else {
        put_all(put(tables, i, pairs.first().0, pairs.first().1), i, pairs.drop_first())
    }
}

/// The records that the insertions of `pairs` into the collection `name`
/// leave in the log, in order.
pub open spec fn insertion_records(name: Seq<char>, pairs: Seq<(Seq<char>, Value)>) -> Seq<Record> {
    pairs.map_values(|pair: (Seq<char>, Value)| Record::insertion(name, pair.0, pair.1))
}

/// The pairs with each document as it reads back.
pub open spec fn pairs_read_back(pairs: Seq<(Seq<char>, Value)>) -> Seq<(Seq<char>, Value)> {
    pairs.map_values(|pair: (Seq<char>, Value)| (pair.0, read_back(pair.1)))
}

/// Every document of the tables is stable.
pub open spec fn all_stable(tables: Seq<Table>) -> bool {
    forall|t: int, key: Seq<char>|
        0 <= t < tables.len() && (#[trigger] tables[t]).entries.contains_key(key) ==> stable(
            #[trigger] tables[t].entries[key],
        )
}

/// Whether some pair puts a document under the key.
pub open spec fn has_key(pairs: Seq<(Seq<char>, Value)>, key: Seq<char>) -> bool {
    exists|j: int| 0 <= j < pairs.len() && (#[trigger] pairs[j]).0 == key
}

/// The entries after each document of `pairs` was put under its key, in
/// order.
pub open spec fn put_entries(entries: Map<Seq<char>, Value>, pairs: Seq<(Seq<char>, Value)>) -> Map<
    Seq<char>,
    Value,
>
    decreases pairs.len(),
{
    if pairs.len() == 0 {
        entries
    } else {
        put_entries(entries.insert(pairs.first().0, pairs.first().1), pairs.drop_first())
    }
}

/// Whether two tables hold the same under every key that no pair puts a
/// document under.
pub open spec fn agree_elsewhere(
    a: Map<Seq<char>, Value>,
    b: Map<Seq<char>, Value>,
    pairs: Seq<(Seq<char>, Value)>,
) -> bool {
    forall|key: Seq<char>|
        !has_key(pairs, key) ==> a.contains_key(key) == b.contains_key(key) && (a.contains_key(key)
            ==> a[key] == b[key])
}

/// Changing the entries of a table moves no name: every name is found where
/// it was found before.
pub proof fn lemma_position_survives_put(
    tables: Seq<Table>,
    i: int,
    key: Seq<char>,
    value: Value,
    name: Seq<char>,
)
    requires
        0 <= i < tables.len(),
    ensures
        position(put(tables, i, key, value), name) == position(tables, name),
{
    let after = put(tables, i, key, value);
    crate::database::lemma_position(tables, name);
    crate::database::lemma_position(after, name);
    assert forall|j: int| 0 <= j < tables.len() implies (#[trigger] after[j]).name == tables[j].name by {}
    match position(tables, name) {
        Some(a) => {
            assert(after[a].name == name);
            match position(after, name) {
                Some(b) => {
                    if b < a {
                        assert(tables[b].name == after[b].name);
                    } else if a < b {
                        assert(after[a].name == name);
                    }
                },
                None => {},
            }
        },
        None => {
            match position(after, name) {
                Some(b) => {
                    assert(tables[b].name == after[b].name);
                },
                None => {},
            }
        },
    }
}

/// Applying the records of insertions again makes the insertions again,
/// each with its document as it reads back from the log.
///
/// The collection must be the first of its name, since a record finds its
/// collection by name, and every document must be readable, since a record
/// carries a document as its text.
pub proof fn replay_repeats_insertions(store: Store, i: int, pairs: Seq<(Seq<char>, Value)>)
    requires
        0 <= i < store.tables.len(),
        position(store.tables, store.tables[i].name) == Some(i),
        forall|j: int| 0 <= j < pairs.len() ==> readable(#[trigger] pairs[j].1),
    ensures
        store.replay(insertion_records(store.tables[i].name, pairs)).1 is None,
        store.replay(insertion_records(store.tables[i].name, pairs)).0.tables == put_all(
            store.tables,
            i,
            pairs_read_back(pairs),
        ),
        store.replay(insertion_records(store.tables[i].name, pairs)).0.path == store.path,
        store.replay(insertion_records(store.tables[i].name, pairs)).0.accounts == store.accounts,
        store.replay(insertion_records(store.tables[i].name, pairs)).0.session == store.session,
    decreases pairs.len(),
{
    let name = store.tables[i].name;
    let records = insertion_records(name, pairs);
    if pairs.len() > 0 {
        let key = pairs.first().0;
        let value = pairs.first().1;
        assert(readable(pairs[0].1));
        assert(records.first() == Record::insertion(name, key, value));
        let next = Store { selected: Some(i), ..store }.with_entries(
            i,
            store.tables[i].entries.insert(key, read_back(value)),
        );
        assert(store.apply(records.first()) == Ok::<Store, Failure>(next));
        assert(next.tables == put(store.tables, i, key, read_back(value)));
        lemma_position_survives_put(store.tables, i, key, read_back(value), name);
        let rest = pairs.drop_first();
        assert forall|j: int| 0 <= j < rest.len() implies readable(#[trigger] rest[j].1) by {
            assert(rest[j] == pairs[j + 1]);
        }
        replay_repeats_insertions(next, i, rest);
        assert(records.drop_first() =~= insertion_records(name, rest));
        assert(pairs_read_back(pairs).first() == (key, read_back(value)));
        assert(pairs_read_back(pairs).drop_first() =~= pairs_read_back(rest));
    }
}

/// Where every document that is inserted is stable, applying the records
/// again gives exactly the tables of the running store.
pub proof fn replay_restores_stable_documents(store: Store, i: int, pairs: Seq<(Seq<char>, Value)>)
    requires
        0 <= i < store.tables.len(),
        position(store.tables, store.tables[i].name) == Some(i),
        forall|j: int| 0 <= j < pairs.len() ==> stable(#[trigger] pairs[j].1),
    ensures
        store.replay(insertion_records(store.tables[i].name, pairs)).1 is None,
        store.replay(insertion_records(store.tables[i].name, pairs)).0.tables == put_all(
            store.tables,
            i,
            pairs,
        ),
{
    replay_repeats_insertions(store, i, pairs);
    assert(pairs_read_back(pairs) =~= pairs);
}

/// A log without bytes holds no records.
pub proof fn empty_log_holds_nothing()
    ensures
        records_in(Seq::<u8>::empty()) == Seq::<Record>::empty(),
{
}

/// Putting documents into one table is putting them into its entries, and
/// changes neither a name nor the number of tables.
pub proof fn lemma_put_all(tables: Seq<Table>, i: int, pairs: Seq<(Seq<char>, Value)>)
    requires
        0 <= i < tables.len(),
    ensures
        put_all(tables, i, pairs) == tables.update(
            i,
            Table { name: tables[i].name, entries: put_entries(tables[i].entries, pairs) },
        ),
    decreases pairs.len(),
{
    if pairs.len() == 0 {
        assert(tables.update(i, Table { name: tables[i].name, entries: tables[i].entries }) =~= tables);
    } else {
        let next = put(tables, i, pairs.first().0, pairs.first().1);
        lemma_put_all(next, i, pairs.drop_first());
        assert(next.update(
            i,
            Table { name: next[i].name, entries: put_entries(next[i].entries, pairs.drop_first()) },
        ) =~= tables.update(
            i,
            Table { name: tables[i].name, entries: put_entries(tables[i].entries, pairs) },
        ));
    }
}

/// Putting documents into a table moves no name: every name is found where
/// it was found before.
pub proof fn lemma_position_survives_put_all(
    tables: Seq<Table>,
    i: int,
    pairs: Seq<(Seq<char>, Value)>,
    name: Seq<char>,
)
    requires
        0 <= i < tables.len(),
    ensures
        position(put_all(tables, i, pairs), name) == position(tables, name),
    decreases pairs.len(),
{
    if pairs.len() > 0 {
        let next = put(tables, i, pairs.first().0, pairs.first().1);
        lemma_position_survives_put(tables, i, pairs.first().0, pairs.first().1, name);
        lemma_position_survives_put_all(next, i, pairs.drop_first(), name);
    }
}

/// What a key holds after documents were put in does not depend on what it
/// held before, where some document was put under it: entries that agree
/// elsewhere are the same afterwards.
pub proof fn lemma_put_overwrites(
    a: Map<Seq<char>, Value>,
    b: Map<Seq<char>, Value>,
    pairs: Seq<(Seq<char>, Value)>,
)
    requires
        agree_elsewhere(a, b, pairs),
    ensures
        put_entries(a, pairs) == put_entries(b, pairs),
    decreases pairs.len(),
{
    if pairs.len() == 0 {
        assert forall|key: Seq<char>| #[trigger] a.dom().contains(key) == b.dom().contains(key) by {
            assert(!has_key(pairs, key));
        }
        assert(a.dom() =~= b.dom());
        assert forall|key: Seq<char>| a.dom().contains(key) implies #[trigger] a[key] == b[key] by {
            assert(!has_key(pairs, key));
        }
        assert(a =~= b);
    } else {
        let rest = pairs.drop_first();
        let a1 = a.insert(pairs.first().0, pairs.first().1);
        let b1 = b.insert(pairs.first().0, pairs.first().1);
        assert forall|key: Seq<char>| !has_key(rest, key) implies a1.contains_key(key) == b1.contains_key(
            key,
        ) && (a1.contains_key(key) ==> a1[key] == b1[key]) by {
            if key != pairs.first().0 {
                if has_key(pairs, key) {
                    let j = choose|j: int| 0 <= j < pairs.len() && (#[trigger] pairs[j]).0 == key;
                    assert(pairs[0].0 != key);
                    assert(rest[j - 1] == pairs[j]);
                    assert(has_key(rest, key));
                }
            }
        }
        lemma_put_overwrites(a1, b1, rest);
    }
}

/// Putting documents in changes nothing under a key that no document was
/// put under.
pub proof fn lemma_put_leaves_elsewhere(entries: Map<Seq<char>, Value>, pairs: Seq<(Seq<char>, Value)>)
    ensures
        agree_elsewhere(put_entries(entries, pairs), entries, pairs),
    decreases pairs.len(),
{
    if pairs.len() > 0 {
        let rest = pairs.drop_first();
        let next = entries.insert(pairs.first().0, pairs.first().1);
        lemma_put_leaves_elsewhere(next, rest);
        assert forall|key: Seq<char>| !has_key(pairs, key) implies put_entries(entries, pairs).contains_key(
            key,
        ) == entries.contains_key(key) && (put_entries(entries, pairs).contains_key(key) ==> put_entries(
            entries,
            pairs,
        )[key] == entries[key]) by {
            assert(pairs[0].0 != key);
            if has_key(rest, key) {
                let j = choose|j: int| 0 <= j < rest.len() && (#[trigger] rest[j]).0 == key;
                assert(pairs[j + 1] == rest[j]);
                assert(has_key(pairs, key));
            }
        }
    }
}

/// Applying the records of a run again to the running store itself leaves
/// what applying them to the store as it was loaded leaves: the documents of
/// the run, each as it reads back, over what was loaded.
pub proof fn lemma_replay_over_the_running_store(tables: Seq<Table>, i: int, pairs: Seq<(Seq<char>, Value)>)
    requires
        0 <= i < tables.len(),
    ensures
        put_all(put_all(tables, i, pairs), i, pairs_read_back(pairs)) == put_all(
            tables,
            i,
            pairs_read_back(pairs),
        ),
{
    let again = pairs_read_back(pairs);
    let running = put_all(tables, i, pairs);
    lemma_put_all(tables, i, pairs);
    lemma_put_all(running, i, again);
    lemma_put_all(tables, i, again);
    let before = tables[i].entries;
    let between = put_entries(before, pairs);
    lemma_put_leaves_elsewhere(before, pairs);
    assert forall|key: Seq<char>| !has_key(again, key) implies between.contains_key(key) == before.contains_key(
        key,
    ) && (between.contains_key(key) ==> between[key] == before[key]) by {
        if has_key(pairs, key) {
            let j = choose|j: int| 0 <= j < pairs.len() && (#[trigger] pairs[j]).0 == key;
            assert(again[j].0 == key);
            assert(has_key(again, key));
        }
    }
    lemma_put_overwrites(between, before, again);
    assert(put_all(running, i, again) =~= put_all(tables, i, again));
}

/// Loading after a crash gives the collections that saving and loading would
/// have given.
///
/// The store was loaded from `files` and `accounts`. Then the documents of
/// `pairs` were inserted into the collection at `i`, which left the store
/// `running` and a `log` that holds exactly the records of those insertions,
/// as `insert` leaves it (see `insertion_keeps_the_log_exact`). Had the store
/// been saved then, successfully, `save_data` would have handed out the
/// snapshots `saved` and left the log `log_after`. Loading `saved` with
/// `log_after` gives the same tables as loading `files` with `log`, and the
/// log that the saving left is empty.
///
/// This is asked of the inputs: the collection is the first of its name,
/// since a record finds its collection by name; every document that was
/// inserted can be read back, since the log carries a document as its text;
/// and every document of the tables that come back is stable, since a
/// snapshot carries a document as its text too.
pub proof fn crash_recovery_equivalence(
    path: Seq<char>,
    files: Seq<(Seq<char>, Seq<u8>)>,
    accounts: Registry,
    log: Seq<u8>,
    i: int,
    pairs: Seq<(Seq<char>, Value)>,
    running: Store,
    saved: Seq<(Seq<char>, Seq<u8>)>,
    post: Store,
    log_after: Seq<u8>,
)
    requires
        0 <= i < files.len(),
        position(
            Store::from_files(path, files, accounts).tables,
            Store::from_files(path, files, accounts).tables[i].name,
        ) == Some(i),
        holds_exactly(log, insertion_records(Store::from_files(path, files, accounts).tables[i].name, pairs)),
        forall|j: int| 0 <= j < pairs.len() ==> readable(#[trigger] pairs[j].1),
        all_stable(put_all(Store::from_files(path, files, accounts).tables, i, pairs_read_back(pairs))),
        running.tables == put_all(Store::from_files(path, files, accounts).tables, i, pairs),
        running.save_data(log, post, log_after, Ok::<Seq<(Seq<char>, Seq<u8>)>, Failure>(saved)),
    ensures
        ({
            let after_crash = Store::from_files(path, files, accounts).replay(records_in(log));
            let after_saving = Store::from_files(path, saved, accounts).replay(records_in(log_after));
            &&& log_after == Seq::<u8>::empty()
            &&& after_crash.1 is None
            &&& after_saving.1 is None
            &&& after_crash.0.tables == after_saving.0.tables
            &&& after_crash.0.accounts == after_saving.0.accounts
        }),
{
    let base = Store::from_files(path, files, accounts);
    let name = base.tables[i].name;
    let records = insertion_records(name, pairs);
    let again = pairs_read_back(pairs);
    let recovered = put_all(base.tables, i, again);
    lemma_log_reads_back(log, records);
    replay_repeats_insertions(base, i, pairs);
    lemma_put_all(base.tables, i, pairs);
    lemma_put_all(base.tables, i, again);
    lemma_position_survives_put_all(base.tables, i, pairs, name);
    assert(running.tables[i].name == name);
    replay_repeats_insertions(running, i, pairs);
    lemma_replay_over_the_running_store(base.tables, i, pairs);
    let replayed = running.replay(records_in(log)).0;
    assert(replayed.tables == recovered);
    assert(replayed.snapshots_complete());
    assert(saved == replayed.snapshots());
    let reloaded = Store::from_files(path, saved, accounts);
    assert(reloaded.tables =~= recovered) by {
        assert forall|t: int| 0 <= t < recovered.len() implies reloaded.tables[t] == recovered[t] by {
            let table = recovered[t];
            assert forall|key: Seq<char>| table.entries.contains_key(key) implies readable(
                #[trigger] table.entries[key],
            ) by {
                assert(stable(recovered[t].entries[key]));
            }
            assert(table.readable());
            assert(replayed.tables[t].snapshot_reads_back());
            assert forall|key: Seq<char>| table.entries.contains_key(key) implies #[trigger] table.entries[key]
                == read_back(table.entries[key]) by {
                assert(stable(recovered[t].entries[key]));
            }
            assert(table.read_back().entries =~= table.entries);
        }
    }
}

/// An insertion that succeeded into a log that held exactly some records
/// leaves a log that holds exactly those records and the record of the
/// insertion. So a log that was empty when the store was loaded holds, after
/// any run of insertions, exactly their records, and reads back as them.
pub proof fn insertion_keeps_the_log_exact(
    pre: Store,
    log: Seq<u8>,
    key: Seq<char>,
    value: Value,
    post: Store,
    log_after: Seq<u8>,
    answer: Result<Reply, Failure>,
    records: Seq<Record>,
)
    requires
        pre.wf(),
        pre.insert(log, key, value, post, log_after, answer),
        answer is Ok,
        holds_exactly(log, records),
    ensures
        holds_exactly(
            log_after,
            records.push(Record::insertion(pre.tables[pre.selected.unwrap()].name, key, value)),
        ),
        records_in(log_after) == records.push(
            Record::insertion(pre.tables[pre.selected.unwrap()].name, key, value),
        ),
{
    let record = Record::insertion(pre.tables[pre.selected.unwrap()].name, key, value);
    lemma_log_grows(log, records, record);
    lemma_log_reads_back(log_after, records.push(record));
}

/// A deletion that was carried out into a log that held exactly some records
/// leaves a log that holds exactly those records and the record of the
/// deletion.
pub proof fn deletion_keeps_the_log_exact(
    pre: Store,
    log: Seq<u8>,
    key: Seq<char>,
    post: Store,
    log_after: Seq<u8>,
    answer: Result<Reply, Failure>,
    records: Seq<Record>,
)
    requires
        pre.wf(),
        pre.delete(log, key, post, log_after, answer),
        answer is Ok || answer matches Err(Failure::ValueNotFound(_)),
        holds_exactly(log, records),
    ensures
        holds_exactly(log_after, records.push(Record::deletion(pre.tables[pre.selected.unwrap()].name, key))),
        records_in(log_after) == records.push(Record::deletion(pre.tables[pre.selected.unwrap()].name, key)),
{
    let record = Record::deletion(pre.tables[pre.selected.unwrap()].name, key);
    lemma_log_grows(log, records, record);
    lemma_log_reads_back(log_after, records.push(record));
}

/// The empty log holds exactly no records.
pub proof fn empty_log_is_exact()
    ensures
        holds_exactly(Seq::<u8>::empty(), Seq::<Record>::empty()),
{
}

/// A run of insertions that each succeed leaves the tables that `put_all`
/// gives: one insertion that succeeded puts its document into the selected
/// table and changes nothing else of the store.
pub proof fn insertion_puts(
    pre: Store,
    log: Seq<u8>,
    key: Seq<char>,
    value: Value,
    post: Store,
    log_after: Seq<u8>,
    answer: Result<Reply, Failure>,
)
    requires
        pre.wf(),
        pre.insert(log, key, value, post, log_after, answer),
        answer is Ok,
    ensures
        pre.selected matches Some(i) && post == (Store { tables: put(pre.tables, i, key, value), ..pre }),
        log_after == log + Record::insertion(pre.tables[pre.selected.unwrap()].name, key, value).bytes().unwrap(),
{
}

} // verus!
