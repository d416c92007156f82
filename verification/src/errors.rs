//! The typed failures that every fallible operation of the store returns.

use vstd::prelude::*;
use vstd::string::StringExecFns;

verus! {

/// `std::io::Error`, a failure of the file system. It is carried as it
/// came; nothing is known of what it holds.
#[verifier::external_type_specification]
#[verifier::external_body]
pub struct ExIoError(std::io::Error);

/// `bincode::ErrorKind`, which `bincode::Error` boxes: a failure of the
/// binary codec. Nothing is known of what it holds.
#[verifier::external_type_specification]
#[verifier::external_body]
pub struct ExCodecErrorKind(bincode::ErrorKind);

/// `bcrypt::BcryptError`, a failure of the password hash. Nothing is known
/// of what it holds.
#[verifier::external_type_specification]
#[verifier::external_body]
pub struct ExHashError(bcrypt::BcryptError);

/// `serde_json::Error`, a failure to write or read a JSON text. Nothing is
/// known of what it holds.
#[verifier::external_type_specification]
#[verifier::external_body]
pub struct ExJsonError(serde_json::Error);

/// A failure of the store. Every variant but `IOError` carries a message;
/// `IOError` carries the failure of the file system as it came.
#[derive(Debug)]
pub enum DatabaseError {
    ValueNotFound(String),
    SyntaxError(String),
    PermissionDenied(String),
    CollectionNotFound(String),
    UserError(String),
    SerializationError(String),
    IOError(std::io::Error),
    CollectionError(String),
    Other(String),
}

/// What a `DatabaseError` says, as a mathematical value: its kind and the
/// characters of its message.
pub enum Failure {
    ValueNotFound(Seq<char>),
    SyntaxError(Seq<char>),
    PermissionDenied(Seq<char>),
    CollectionNotFound(Seq<char>),
    UserError(Seq<char>),
    SerializationError(Seq<char>),
    IOError,
    CollectionError(Seq<char>),
    Other(Seq<char>),
}

impl View for DatabaseError {
    type V = Failure;

    open spec fn view(&self) -> Failure {
        match self {
            DatabaseError::ValueNotFound(m) => Failure::ValueNotFound(m@),
            DatabaseError::SyntaxError(m) => Failure::SyntaxError(m@),
            DatabaseError::PermissionDenied(m) => Failure::PermissionDenied(m@),
            DatabaseError::CollectionNotFound(m) => Failure::CollectionNotFound(m@),
            DatabaseError::UserError(m) => Failure::UserError(m@),
            DatabaseError::SerializationError(m) => Failure::SerializationError(m@),
            DatabaseError::IOError(_) => Failure::IOError,
            DatabaseError::CollectionError(m) => Failure::CollectionError(m@),
            DatabaseError::Other(m) => Failure::Other(m@),
        }
    }
}

impl Failure {
    /// The words that introduce a failure of this kind when it is shown.
    pub open spec fn heading(self) -> Seq<char> {
        match self {
            Failure::ValueNotFound(_) => "Value not found: "@,
            Failure::SyntaxError(_) => "Syntax Error: "@,
            Failure::PermissionDenied(_) => "Permission not high enough: "@,
            Failure::CollectionNotFound(_) => "Collection not found: "@,
            Failure::UserError(_) => "Login Error: "@,
            Failure::SerializationError(_) => "Serialization Error: "@,
            Failure::IOError => "IO error: "@,
            Failure::CollectionError(_) => "Collection Error: "@,
            Failure::Other(_) => "Error: "@,
        }
    }

    /// The message carried, where the kind carries one.
    pub open spec fn message(self) -> Option<Seq<char>> {
        match self {
            Failure::ValueNotFound(m) => Some(m),
            Failure::SyntaxError(m) => Some(m),
            Failure::PermissionDenied(m) => Some(m),
            Failure::CollectionNotFound(m) => Some(m),
            Failure::UserError(m) => Some(m),
            Failure::SerializationError(m) => Some(m),
            Failure::IOError => None,
            Failure::CollectionError(m) => Some(m),
            Failure::Other(m) => Some(m),
        }
    }
}

/// Calls `to_string` on a `std::io::Error`, which renders it through its
/// `Display` impl. The text depends on the platform, so nothing is claimed of it.
#[verifier::external_body]
fn io_error_text(err: &std::io::Error) -> String {
    err.to_string()
}

/// Calls `to_string` on a `bincode::Error`, which renders it through its
/// `Display` impl. Nothing is claimed of the text.
#[verifier::external_body]
fn codec_error_text(err: &bincode::Error) -> String {
    err.to_string()
}

/// Calls `to_string` on a `bcrypt::BcryptError`, which renders it through
/// its `Display` impl. Nothing is claimed of the text.
#[verifier::external_body]
fn hash_error_text(err: &bcrypt::BcryptError) -> String {
    err.to_string()
}

/// Whether `line` begins with the characters of `start`.
pub open spec fn starts_with(line: Seq<char>, start: Seq<char>) -> bool {
    line.len() >= start.len() && line.take(start.len() as int) == start
}

/// The characters of `first` followed by those of `second`.
pub(crate) fn joined(first: &str, second: &str) -> (line: String)
    ensures
        line@ == first@ + second@,
        starts_with(line@, first@),
{
    let line = String::from_str(first).concat(second);
    assert(line@.take(first@.len() as int) =~= first@);
    line
}

impl From<std::io::Error> for DatabaseError {
    /// A failure of the file system, kept as it came.
    fn from(err: std::io::Error) -> (e: DatabaseError) {
        DatabaseError::IOError(err)
    }
}

impl vstd::std_specs::convert::FromSpecImpl<std::io::Error> for DatabaseError {
    open spec fn obeys_from_spec() -> bool {
        true
    }

    open spec fn from_spec(err: std::io::Error) -> DatabaseError {
        DatabaseError::IOError(err)
    }
}

impl From<bincode::Error> for DatabaseError {
    /// The failure that stands for a failure of the binary codec: a
    /// `SerializationError` whose message is `bincode: ` and then what the
    /// codec said.
    fn from(err: bincode::Error) -> (e: DatabaseError)
        ensures
            e@ matches Failure::SerializationError(m) && starts_with(m, "bincode: "@),
    {
        let text = codec_error_text(&err);
        DatabaseError::SerializationError(joined("bincode: ", text.as_str()))
    }
}

impl From<bcrypt::BcryptError> for DatabaseError {
    /// The failure that stands for a failure of the password hash: `Other`,
    /// with the message `bcrypt: ` and then what the hash said.
    fn from(err: bcrypt::BcryptError) -> (e: DatabaseError)
        ensures
            e@ matches Failure::Other(m) && starts_with(m, "bcrypt: "@),
    {
        let text = hash_error_text(&err);
        DatabaseError::Other(joined("bcrypt: ", text.as_str()))
    }
}

impl From<serde_json::Error> for DatabaseError {
    /// The failure that stands for a text that is no JSON document: `Other`,
    /// with the message `incorrect json`, whatever was wrong with the text.
    fn from(err: serde_json::Error) -> (e: DatabaseError)
        ensures
            e@ == Failure::Other("incorrect json"@),
    {
        DatabaseError::Other("incorrect json".to_owned())
    }
}

// A spec function cannot name the `String` that a message is made of, so
// these three conversions state their results in the `ensures` of `from`,
// where Verus proves them, and claim nothing through `from_spec`.
impl vstd::std_specs::convert::FromSpecImpl<bincode::Error> for DatabaseError {
    open spec fn obeys_from_spec() -> bool {
        false
    }

    open spec fn from_spec(err: bincode::Error) -> DatabaseError {
        arbitrary()
    }
}

impl vstd::std_specs::convert::FromSpecImpl<bcrypt::BcryptError> for DatabaseError {
    open spec fn obeys_from_spec() -> bool {
        false
    }

    open spec fn from_spec(err: bcrypt::BcryptError) -> DatabaseError {
        arbitrary()
    }
}

impl vstd::std_specs::convert::FromSpecImpl<serde_json::Error> for DatabaseError {
    open spec fn obeys_from_spec() -> bool {
        false
    }

    open spec fn from_spec(err: serde_json::Error) -> DatabaseError {
        arbitrary()
    }
}

impl DatabaseError {
    /// The line shown for this failure: the heading of its kind, then its
    /// message. For a failure of the file system the message is the one the
    /// system gave.
    pub fn to_string(&self) -> (line: String)
        ensures
            self@.message() matches Some(m) ==> line@ == self@.heading() + m,
            self@.message() is None ==> starts_with(line@, self@.heading()),
    {
        match self {
            DatabaseError::ValueNotFound(m) => joined("Value not found: ", m.as_str()),
            DatabaseError::SyntaxError(m) => joined("Syntax Error: ", m.as_str()),
            DatabaseError::PermissionDenied(m) => joined("Permission not high enough: ", m.as_str()),
            DatabaseError::CollectionNotFound(m) => joined("Collection not found: ", m.as_str()),
            DatabaseError::UserError(m) => joined("Login Error: ", m.as_str()),
            DatabaseError::SerializationError(m) => joined("Serialization Error: ", m.as_str()),
            DatabaseError::IOError(err) => {
                let text = io_error_text(err);
                joined("IO error: ", text.as_str())
            },
            DatabaseError::CollectionError(m) => joined("Collection Error: ", m.as_str()),
            DatabaseError::Other(m) => joined("Error: ", m.as_str()),
        }
    }
}

} // verus!
