//! Accounts, password checks and login.

use crate::codec::{decode_registry, encode_registry, registry_bytes, registry_parsed};
use crate::errors::{DatabaseError, Failure};
use crate::session::{Identity, Session};
use vstd::prelude::*;

verus! {

/// What an account may do. `Guest` may read; the other two may also write.
#[derive(Debug, Clone, Copy, PartialEq, Eq, Structural)]
pub enum Permissions {
    Admin(),
    User(),
    Guest(),
}

impl Permissions {
    /// Whether the permission is strictly above `Guest`.
    pub open spec fn allows_writing(self) -> bool {
        self != Permissions::Guest()
    }

    /// The number under which the permission is stored.
    pub open spec fn code(self) -> u32 {
        match self {
            Permissions::Admin() => 0,
            Permissions::User() => 1,
            Permissions::Guest() => 2,
        }
    }

    /// The permission that is stored under a number, if the number stands
    /// for one.
    pub open spec fn from_code(code: u32) -> Option<Permissions> {
        if code == 0 {
            Some(Permissions::Admin())
        } else if code == 1 {
            Some(Permissions::User())
        } else if code == 2 {
            Some(Permissions::Guest())
        } else {
            None
        }
    }

    /// The number under which the permission is stored.
    pub fn to_code(&self) -> (code: u32)
        ensures
            code == self.code(),
    {
        match self {
            Permissions::Admin() => 0,
            Permissions::User() => 1,
            Permissions::Guest() => 2,
        }
    }

    /// The permission that is stored under a number, if the number stands
    /// for one.
    pub fn of_code(code: u32) -> (permissions: Option<Permissions>)
        ensures
            permissions == Permissions::from_code(code),
    {
        if code == 0 {
            Some(Permissions::Admin())
        } else if code == 1 {
            Some(Permissions::User())
        } else if code == 2 {
            Some(Permissions::Guest())
        } else {
            None
        }
    }

    /// Whether the permission is strictly above `Guest`.
    pub fn can_write(&self) -> (allowed: bool)
        ensures
            allowed == self.allows_writing(),
    {
        match self {
            Permissions::Guest() => false,
            _ => true,
        }
    }
}

/// One account: a name, the hash of its password and its permissions. The
/// hash is kept private, so a contract outside this file speaks of an account
/// through its view; `username` and `permissions` tie the view to what the
/// two public fields hold.
#[derive(Debug)]
pub struct User {
    pub username: String,
    password_hash: String,
    pub permissions: Permissions,
}

/// An account as a mathematical value.
pub struct Account {
    pub username: Seq<char>,
    pub password_hash: Seq<char>,
    pub permissions: Permissions,
}

impl View for User {
    type V = Account;

    closed spec fn view(&self) -> Account {
        Account {
            username: self.username@,
            password_hash: self.password_hash@,
            permissions: self.permissions,
        }
    }
}

impl User {
    /// An account with the given name, password hash and permissions.
    pub fn new(username: String, password_hash: String, permissions: Permissions) -> (user: User)
        ensures
            user@ == (Account {
                username: username@,
                password_hash: password_hash@,
                permissions,
            }),
    {
        User { username, password_hash, permissions }
    }

    /// The name of the account: what the field `username` holds.
    pub fn username(&self) -> (name: &String)
        ensures
            name@ == self@.username,
    {
        &self.username
    }

    /// The permissions of the account: what the field `permissions` holds.
    pub fn permissions(&self) -> (permissions: Permissions)
        ensures
            permissions == self@.permissions,
    {
        self.permissions
    }
}

/// What `bcrypt::verify` answers for a password and a stored hash: whether
/// they match, or nothing where the hash is malformed.
pub uninterp spec fn bcrypt_verdict(password: Seq<char>, hash: Seq<char>) -> Option<bool>;

/// Whether a password is accepted for a stored hash: the check answers, and
/// answers yes.
pub open spec fn password_matches(password: Seq<char>, hash: Seq<char>) -> bool {
    bcrypt_verdict(password, hash) == Some(true)
}

/// Calls `bcrypt::verify`. The answer depends on the password and the hash
/// alone: the hash holds its own salt and cost.
#[verifier::external_body]
fn bcrypt_verify(password: &str, hash: &str) -> (r: Result<bool, bcrypt::BcryptError>)
    ensures
        r.is_ok() == bcrypt_verdict(password@, hash@).is_some(),
        r matches Ok(b) ==> bcrypt_verdict(password@, hash@) == Some(b),
{
    bcrypt::verify(password, hash)
}

/// Calls `bcrypt::hash` with the crate's default cost. The salt is drawn at
/// random, so the hash that comes back has no name. One thing holds of every
/// hash that comes back: it carries its salt and cost, and `bcrypt::verify`
/// accepts the same password for it.
#[verifier::external_body]
fn bcrypt_hash(password: &str) -> (r: Result<String, bcrypt::BcryptError>)
    ensures
        r matches Ok(hash) ==> bcrypt_verdict(password@, hash@) == Some(true),
{
    bcrypt::hash(password, bcrypt::DEFAULT_COST)
}

/// One row of the stored account table: the name that the account is filed
/// under, its name, its password hash and the number of its permission.
pub type Row = (Seq<char>, Seq<char>, Seq<char>, u32);

/// The accounts of a sequence, by name. A later account of a name stands
/// before an earlier one.
pub open spec fn accounts_of(accounts: Seq<Account>) -> Map<Seq<char>, Account>
    decreases accounts.len(),
{
    if accounts.len() == 0 {
        Map::empty()
    } else {
        accounts_of(accounts.drop_last()).insert(accounts.last().username, accounts.last())
    }
}

/// No name occurs twice among the accounts.
pub open spec fn distinct_names(accounts: Seq<Account>) -> bool {
    forall|i: int, j: int|
        0 <= i < j < accounts.len() ==> (#[trigger] accounts[i]).username != (#[trigger] accounts[j]).username
}

/// The table has a name exactly where some account of the sequence has it.
pub proof fn lemma_accounts_domain(accounts: Seq<Account>, name: Seq<char>)
    ensures
        accounts_of(accounts).contains_key(name) <==> exists|i: int|
            0 <= i < accounts.len() && (#[trigger] accounts[i]).username == name,
    decreases accounts.len(),
{
    if accounts.len() > 0 {
        let front = accounts.drop_last();
        lemma_accounts_domain(front, name);
        if accounts_of(accounts).contains_key(name) {
            if accounts.last().username == name {
                assert(accounts[accounts.len() - 1].username == name);
            } else {
                let i = choose|i: int| 0 <= i < front.len() && (#[trigger] front[i]).username == name;
                assert(accounts[i].username == name);
            }
        }
        if exists|i: int| 0 <= i < accounts.len() && (#[trigger] accounts[i]).username == name {
            let i = choose|i: int| 0 <= i < accounts.len() && (#[trigger] accounts[i]).username == name;
            if i < accounts.len() - 1 {
                assert(front[i].username == name);
            }
        }
    }
}

/// An account that is added behind the others is found under its name.
pub proof fn lemma_last_account_is_found(accounts: Seq<Account>, account: Account)
    ensures
        accounts_of(accounts.push(account)).contains_key(account.username),
        accounts_of(accounts.push(account))[account.username] == account,
{
    assert(accounts.push(account).drop_last() =~= accounts);
}

/// Where no name occurs twice, the table holds each account under its name.
pub proof fn lemma_accounts_at(accounts: Seq<Account>, i: int)
    requires
        distinct_names(accounts),
        0 <= i < accounts.len(),
    ensures
        accounts_of(accounts).contains_key(accounts[i].username),
        accounts_of(accounts)[accounts[i].username] == accounts[i],
    decreases accounts.len(),
{
    let front = accounts.drop_last();
    if i < accounts.len() - 1 {
        assert(distinct_names(front)) by {
            assert forall|a: int, b: int| 0 <= a < b < front.len() implies (#[trigger] front[a]).username
                != (#[trigger] front[b]).username by {
                assert(front[a] == accounts[a] && front[b] == accounts[b]);
            }
        }
        lemma_accounts_at(front, i);
        assert(front[i] == accounts[i]);
        assert(accounts[i].username != accounts[accounts.len() - 1].username);
    }
}

/// The account that a stored row stands for.
pub open spec fn account_of_row(row: Row) -> Account {
    Account {
        username: row.1,
        password_hash: row.2,
        permissions: match Permissions::from_code(row.3) {
            Some(permissions) => permissions,
            None => Permissions::Guest(),
        },
    }
}

/// The stored row of an account.
pub open spec fn row_of_account(account: Account) -> Row {
    (account.username, account.username, account.password_hash, account.permissions.code())
}

/// A stored row is sound where it is filed under its own name and its number
/// stands for a permission.
pub open spec fn sound_row(row: Row) -> bool {
    row.0 == row.1 && Permissions::from_code(row.3) is Some
}

/// The accounts that stored rows stand for: one for each row, in the order of
/// the rows. Rows stand for no accounts where one of them is unsound or where
/// two of them have one name.
pub open spec fn stored_accounts(rows: Seq<Row>) -> Option<Seq<Account>> {
    let accounts = rows.map_values(|row: Row| account_of_row(row));
    if (forall|i: int| 0 <= i < rows.len() ==> sound_row(#[trigger] rows[i])) && distinct_names(accounts) {
        Some(accounts)
    } else {
        None
    }
}

/// The account table that the bytes of a snapshot hold, where they hold one.
pub open spec fn stored_registry(bytes: Seq<u8>) -> Option<Registry> {
    match registry_parsed(bytes) {
        Some(stored) => match stored_accounts(stored.0) {
            Some(accounts) => Some(Registry { accounts, current: stored.1 }),
            None => None,
        },
        None => None,
    }
}

/// The account table and the name of whoever logged in last.
///
/// The accounts are kept in the order in which they were added, so that the
/// snapshot of a table is the same bytes every time it is written. No name
/// occurs twice among them.
#[derive(Debug)]
pub struct AuthManager {
    users: Vec<User>,
    current: Option<String>,
}

/// An account table as a mathematical value.
pub struct Registry {
    /// The accounts, in the order in which they were added.
    pub accounts: Seq<Account>,
    /// The name of whoever logged in last.
    pub current: Option<Seq<char>>,
}

impl Registry {
    /// The accounts by name.
    pub open spec fn users(self) -> Map<Seq<char>, Account> {
        accounts_of(self.accounts)
    }

    /// No name occurs twice in the table.
    pub open spec fn wf(self) -> bool {
        distinct_names(self.accounts)
    }

    /// The stored rows of the table.
    pub open spec fn rows(self) -> Seq<Row> {
        self.accounts.map_values(|account: Account| row_of_account(account))
    }

    /// The bytes of the table's snapshot, where it can be written.
    pub open spec fn bytes(self) -> Option<Seq<u8>> {
        registry_bytes(self.rows(), self.current)
    }

    /// Whether a login of `username` with `password` succeeds: the table
    /// has the name, and the password is accepted for the stored hash.
    pub open spec fn accepts(self, username: Seq<char>, password: Seq<char>) -> bool {
        self.users().contains_key(username) && password_matches(
            password,
            self.users()[username].password_hash,
        )
    }

    /// The failure of a login that does not succeed.
    pub open spec fn refusal(self, username: Seq<char>) -> Failure {
        if self.users().contains_key(username) {
            Failure::UserError("Incorrect Password"@)
        } else {
            Failure::UserError("User not found"@)
        }
    }

    /// The table with one more account.
    pub open spec fn with_account(self, account: Account) -> Registry {
        Registry { accounts: self.accounts.push(account), ..self }
    }
}

impl View for AuthManager {
    type V = Registry;

    closed spec fn view(&self) -> Registry {
        Registry { accounts: accounts_in(self.users@), current: self.current.deep_view() }
    }
}

/// The accounts that a sequence of records stands for.
pub closed spec fn accounts_in(users: Seq<User>) -> Seq<Account> {
    users.map_values(|u: User| u@)
}

/// Where the record of `name` stands among the records, if one of them has
/// the name.
fn place_of(users: &Vec<User>, name: &String) -> (found: Option<usize>)
    requires
        distinct_names(accounts_in(users@)),
    ensures
        found is Some <==> accounts_of(accounts_in(users@)).contains_key(name@),
        found is None ==> forall|j: int|
            0 <= j < users@.len() ==> (#[trigger] accounts_in(users@)[j]).username != name@,
        found matches Some(i) ==> i < users@.len() && users@[i as int]@.username == name@
            && accounts_of(accounts_in(users@))[name@] == users@[i as int]@,
{
    let mut i: usize = 0;
    while i < users.len()
        invariant
            i <= users@.len(),
            distinct_names(accounts_in(users@)),
            forall|j: int| 0 <= j < i ==> (#[trigger] accounts_in(users@)[j]).username != name@,
        decreases users@.len() - i,
    {
        assert(accounts_in(users@)[i as int] == users@[i as int]@);
        if users[i].username == *name {
            proof {
                lemma_accounts_at(accounts_in(users@), i as int);
            }
            return Some(i);
        }
        i += 1;
    }
    proof {
        lemma_accounts_domain(accounts_in(users@), name@);
    }
    None
}

/// Adding an account of a new name keeps the names distinct.
proof fn lemma_push_keeps_distinct(before: Seq<Account>, account: Account)
    requires
        distinct_names(before),
        forall|j: int| 0 <= j < before.len() ==> (#[trigger] before[j]).username != account.username,
    ensures
        distinct_names(before.push(account)),
{
    let after = before.push(account);
    assert forall|i: int, j: int| 0 <= i < j < after.len() implies (#[trigger] after[i]).username
        != (#[trigger] after[j]).username by {
        if j < before.len() {
            assert(after[i] == before[i] && after[j] == before[j]);
        } else {
            assert(after[i] == before[i]);
        }
    }
}

impl AuthManager {
    #[verifier::type_invariant]
    spec fn well_formed(&self) -> bool {
        distinct_names(accounts_in(self.users@))
    }

    /// The session that a login of `user` yields: the account's name and a
    /// copy of its permissions.
    pub fn create_session(user: &User) -> (session: Session)
        ensures
            session@ == (Identity { user: user@.username, permissions: user@.permissions }),
    {
        Session { user: user.username.clone(), permissions: user.permissions }
    }

    /// A table without accounts, and nobody logged in.
    pub fn new() -> (manager: AuthManager)
        ensures
            manager@.accounts == Seq::<Account>::empty(),
            manager@.current is None,
            manager@.wf(),
    {
        let users: Vec<User> = Vec::new();
        assert(accounts_in(users@) =~= Seq::<Account>::empty());
        AuthManager { users, current: None }
    }

    /// Where the record of `name` stands among the records, if the table has
    /// the name.
    fn find(&self, name: &String) -> (found: Option<usize>)
        ensures
            self@.wf(),
            found is Some <==> self@.users().contains_key(name@),
            found matches Some(i) ==> i < self.users@.len() && self.users@[i as int]@.username == name@
                && self@.users()[name@] == self.users@[i as int]@,
    {
        proof {
            use_type_invariant(self);
        }
        place_of(&self.users, name)
    }

    /// Whether `password` is accepted for the stored `hash`. A hash that
    /// cannot be read accepts no password.
    fn verify_password(password: String, hash: &str) -> (accepted: bool)
        ensures
            accepted == password_matches(password@, hash@),
    {
        match bcrypt_verify(password.as_str(), hash) {
            Ok(answer) => answer,
            Err(_) => false,
        }
    }

    /// Logs `username` in with `password`.
    ///
    /// Succeeds exactly when the table has the name and the password is
    /// accepted for the stored hash; the session then carries the name and a
    /// copy of the account's permissions, and the name is remembered as the
    /// current one. Otherwise nothing changes, and the failure says whether
    /// the name or the password was wrong. No account is ever changed.
    pub fn login(&mut self, username: String, password: String) -> (r: Result<Session, DatabaseError>)
        ensures
            final(self)@.accounts == old(self)@.accounts,
            final(self)@.wf(),
            match r {
                Ok(session) => {
                    &&& old(self)@.accepts(username@, password@)
                    &&& session@ == (Identity {
                        user: username@,
                        permissions: old(self)@.users()[username@].permissions,
                    })
                    &&& final(self)@.current == Some(username@)
                },
                Err(e) => {
                    &&& !old(self)@.accepts(username@, password@)
                    &&& final(self)@ == old(self)@
                    &&& e@ == old(self)@.refusal(username@)
                },
            },
    {
        proof {
            use_type_invariant(&*self);
        }
        match self.find(&username) {
            Some(i) => {
                if AuthManager::verify_password(password, self.users[i].password_hash.as_str()) {
                    let session = AuthManager::create_session(&self.users[i]);
                    self.current = Some(username);
                    Ok(session)
                } else {
                    Err(DatabaseError::UserError("Incorrect Password".to_owned()))
                }
            },
            None => Err(DatabaseError::UserError("User not found".to_owned())),
        }
    }

    /// Adds an account for `username`, given what hashing its password
    /// gave.
    ///
    /// Fails with `UserError` where the table has the name already, whatever
    /// the hash. Otherwise fails with `Other` where the hashing failed.
    /// Otherwise the account is added behind the others, with the hash and
    /// the permissions given. On failure the table stays as it was.
    pub fn add_user(
        &mut self,
        username: &String,
        hashed: Result<String, bcrypt::BcryptError>,
        permissions: Permissions,
    ) -> (r: Result<(), DatabaseError>)
        ensures
            final(self)@.wf(),
            match r {
                Ok(_) => {
                    &&& !old(self)@.users().contains_key(username@)
                    &&& hashed matches Ok(hash) && final(self)@ == old(self)@.with_account(
                        Account { username: username@, password_hash: hash@, permissions },
                    )
                },
                Err(e) => {
                    &&& final(self)@ == old(self)@
                    &&& if old(self)@.users().contains_key(username@) {
                        e@ == Failure::UserError("Username already taken"@)
                    } else {
                        hashed is Err && e@ is Other
                    }
                },
            },
    {
        proof {
            use_type_invariant(&*self);
        }
        let found = place_of(&self.users, username);
        if found.is_some() {
            return Err(DatabaseError::UserError("Username already taken".to_owned()));
        }
        match hashed {
            Err(err) => Err(DatabaseError::from(err)),
            Ok(hash) => {
                let user = User::new(username.clone(), hash, permissions);
                let mut users: Vec<User> = Vec::new();
                assert(accounts_in(users@) =~= Seq::<Account>::empty());
                core::mem::swap(&mut self.users, &mut users);
                proof {
                    lemma_push_keeps_distinct(accounts_in(users@), user@);
                    assert(accounts_in(users@.push(user)) =~= accounts_in(users@).push(user@));
                }
                users.push(user);
                core::mem::swap(&mut self.users, &mut users);
                Ok(())
            },
        }
    }

    /// Makes an account for `username` with the given password and
    /// permissions, and returns the bytes of the table's new snapshot.
    ///
    /// Fails with `UserError` where the table has the name already; the
    /// password is then not even hashed. Otherwise the password is hashed,
    /// with a salt drawn at random; where that fails the failure is `Other`.
    /// The table stays as it was in both cases. Otherwise the account is
    /// added behind the others with the hash that came back: a hash that
    /// accepts the password, so that a login with it succeeds from then on.
    /// The whole table is then written out: the bytes are those of the new
    /// table's snapshot, or the failure is `SerializationError` where the
    /// snapshot cannot be written.
    pub fn new_user(&mut self, username: &String, password: &String, permissions: Permissions) -> (r:
        Result<Vec<u8>, DatabaseError>)
        ensures
            final(self)@.wf(),
            old(self)@.users().contains_key(username@) ==> {
                &&& final(self)@ == old(self)@
                &&& r matches Err(e) && e@ == Failure::UserError("Username already taken"@)
            },
            !old(self)@.users().contains_key(username@) ==> {
                ||| {
                    &&& final(self)@ == old(self)@
                    &&& r matches Err(e) && e@ is Other
                }
                ||| {
                    &&& final(self)@ == old(self)@.with_account(
                        Account {
                            username: username@,
                            password_hash: final(self)@.accounts.last().password_hash,
                            permissions,
                        },
                    )
                    &&& password_matches(password@, final(self)@.accounts.last().password_hash)
                    &&& final(self)@.accepts(username@, password@)
                    &&& match r {
                        Ok(bytes) => final(self)@.bytes() == Some(bytes@),
                        Err(e) => final(self)@.bytes() is None && e@ is SerializationError,
                    }
                }
            },
    {
        if self.find(username).is_some() {
            return Err(DatabaseError::UserError("Username already taken".to_owned()));
        }
        let hashed = bcrypt_hash(password.as_str());
        match self.add_user(username, hashed, permissions) {
            Err(e) => Err(e),
            Ok(_) => {
                proof {
                    lemma_last_account_is_found(old(self)@.accounts, self@.accounts.last());
                }
                self.to_bytes()
            },
        }
    }

    /// The bytes of the table's snapshot.
    ///
    /// Fails with `SerializationError` exactly where the snapshot cannot be
    /// written.
    pub fn to_bytes(&self) -> (r: Result<Vec<u8>, DatabaseError>)
        ensures
            match r {
                Ok(bytes) => self@.bytes() == Some(bytes@),
                Err(e) => self@.bytes() is None && e@ is SerializationError,
            },
    {
        let mut rows: Vec<(String, String, String, u32)> = Vec::new();
        let mut i: usize = 0;
        while i < self.users.len()
            invariant
                i <= self.users@.len(),
                rows.deep_view() =~= self@.rows().take(i as int),
            decreases self.users@.len() - i,
        {
            let user = &self.users[i];
            assert(self@.accounts[i as int] == user@);
            let row = (
                user.username.clone(),
                user.username.clone(),
                user.password_hash.clone(),
                user.permissions.to_code(),
            );
            assert(row.deep_view() == row_of_account(user@));
            rows.push(row);
            assert(rows.deep_view() =~= self@.rows().take(i as int).push(row.deep_view()));
            i += 1;
        }
        assert(self@.rows().take(i as int) =~= self@.rows());
        match encode_registry(&rows, &self.current) {
            Ok(bytes) => Ok(bytes),
            Err(err) => Err(DatabaseError::from(err)),
        }
    }

    /// The table that the bytes of a snapshot hold.
    ///
    /// Succeeds exactly where the bytes hold stored rows that stand for
    /// accounts; the table then has those accounts in the order of the rows,
    /// and the current name that was stored. Every failure is a
    /// `SerializationError`.
    pub fn from_bytes(bytes: &[u8]) -> (r: Result<AuthManager, DatabaseError>)
        ensures
            match r {
                Ok(manager) => stored_registry(bytes@) == Some(manager@) && manager@.wf(),
                Err(e) => stored_registry(bytes@) is None && e@ is SerializationError,
            },
    {
        let (rows, current) = match decode_registry(bytes) {
            Ok(stored) => stored,
            Err(err) => {
                return Err(DatabaseError::from(err));
            },
        };
        let ghost stored = rows.deep_view();
        let ghost all = stored.map_values(|row: Row| account_of_row(row));
        let mut users: Vec<User> = Vec::new();
        let mut i: usize = 0;
        assert(accounts_in(users@) =~= all.take(0));
        while i < rows.len()
            invariant
                i <= rows@.len(),
                stored == rows.deep_view(),
                registry_parsed(bytes@) == Some((stored, current.deep_view())),
                all == stored.map_values(|row: Row| account_of_row(row)),
                accounts_in(users@) == all.take(i as int),
                distinct_names(accounts_in(users@)),
                forall|j: int| 0 <= j < i ==> sound_row(#[trigger] stored[j]),
            decreases rows@.len() - i,
        {
            let row = &rows[i];
            assert(stored[i as int] == row.deep_view());
            let permissions = match Permissions::of_code(row.3) {
                Some(permissions) => permissions,
                None => {
                    assert(!sound_row(stored[i as int]));
                    return Err(DatabaseError::SerializationError("users.log: unknown permission".to_owned()));
                },
            };
            if row.0 != row.1 {
                assert(!sound_row(stored[i as int]));
                return Err(DatabaseError::SerializationError("users.log: misfiled account".to_owned()));
            }
            match place_of(&users, &row.1) {
                Some(j) => {
                    proof {
                        assert(accounts_in(users@)[j as int] == users@[j as int]@);
                        assert(all[j as int].username == all[i as int].username);
                        assert(!distinct_names(all));
                    }
                    return Err(DatabaseError::SerializationError("users.log: repeated account".to_owned()));
                },
                None => {},
            }
            let user = User::new(row.1.clone(), row.2.clone(), permissions);
            assert(user@ == all[i as int]);
            proof {
                lemma_push_keeps_distinct(accounts_in(users@), user@);
                assert(accounts_in(users@.push(user)) =~= accounts_in(users@).push(user@));
                assert(accounts_in(users@).push(user@) =~= all.take(i + 1));
            }
            users.push(user);
            i += 1;
        }
        assert(all.take(i as int) =~= all);
        Ok(AuthManager { users, current })
    }
}

} // verus!
