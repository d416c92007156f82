//! Commands, the tokens of a command line, and the reading of one from the
//! other.

use crate::errors::{DatabaseError, Failure};
use crate::json::{is_null, json_parse, null_value, text_to_value, value_clone};
use crate::text::{chars_of, find_blank, to_uppercase, trim, trimmed, uppercase};
use serde_json::Value;
use vstd::prelude::*;
use vstd::string::StrSliceExecFns;

verus! {

/// One request to the store.
#[derive(Debug)]
pub enum Command {
    INSERT(String, Value),
    GET(String),
    DELETE(String),
    SELECT(String),
    NEW(String),
    WHICH(String),
    ERROR(),
}

/// A command as a mathematical value.
pub enum Request {
    Insert(Seq<char>, Value),
    Get(Seq<char>),
    Delete(Seq<char>),
    Select(Seq<char>),
    New(Seq<char>),
    Which(Seq<char>),
    Error,
}

impl View for Command {
    type V = Request;

    open spec fn view(&self) -> Request {
        match self {
            Command::INSERT(key, value) => Request::Insert(key@, *value),
            Command::GET(key) => Request::Get(key@),
            Command::DELETE(key) => Request::Delete(key@),
            Command::SELECT(name) => Request::Select(name@),
            Command::NEW(name) => Request::New(name@),
            Command::WHICH(topic) => Request::Which(topic@),
            Command::ERROR() => Request::Error,
        }
    }
}

/// One token of a command line: a command word, a name or a document.
pub enum Token {
    INSERT,
    GET,
    DELETE,
    SELECT,
    WHICH,
    NEW,
    IDENTIFIER(String),
    JSON(Value),
}

/// A token as a mathematical value.
pub enum Symbol {
    Insert,
    Get,
    Delete,
    Select,
    Which,
    New,
    Identifier(Seq<char>),
    Json(Value),
}

impl View for Token {
    type V = Symbol;

    open spec fn view(&self) -> Symbol {
        match self {
            Token::INSERT => Symbol::Insert,
            Token::GET => Symbol::Get,
            Token::DELETE => Symbol::Delete,
            Token::SELECT => Symbol::Select,
            Token::WHICH => Symbol::Which,
            Token::NEW => Symbol::New,
            Token::IDENTIFIER(name) => Symbol::Identifier(name@),
            Token::JSON(value) => Symbol::Json(*value),
        }
    }
}

/// The name that stands second among the tokens, if a name stands there.
pub open spec fn name_after_word(tokens: Seq<Symbol>) -> Option<Seq<char>> {
    if tokens.len() >= 2 && tokens[1] is Identifier {
        Some(tokens[1]->Identifier_0)
    } else {
        None
    }
}

/// The document that stands third among the tokens, if a document stands
/// there.
pub open spec fn document_after_name(tokens: Seq<Symbol>) -> Option<Value> {
    if tokens.len() >= 3 && tokens[2] is Json {
        Some(tokens[2]->Json_0)
    } else {
        None
    }
}

/// The command that a sequence of tokens spells, or the syntax error that it
/// makes. The first token decides the command. Every command takes the name
/// that follows it; an insertion also takes the document after the name.
pub open spec fn command_of(tokens: Seq<Symbol>) -> Result<Request, Failure> {
    if tokens.len() == 0 {
        Err(Failure::SyntaxError("Unknown command"@))
    } else {
        match (tokens[0], name_after_word(tokens)) {
            (Symbol::Insert, Some(key)) => match document_after_name(tokens) {
                Some(value) => Ok(Request::Insert(key, value)),
                None => Err(Failure::SyntaxError("Missing identifier or json"@)),
            },
            (Symbol::Insert, None) => Err(Failure::SyntaxError("Missing identifier or json"@)),
            (Symbol::Get, Some(key)) => Ok(Request::Get(key)),
            (Symbol::Get, None) => Err(Failure::SyntaxError("Missing identifier"@)),
            (Symbol::Delete, Some(key)) => Ok(Request::Delete(key)),
            (Symbol::Delete, None) => Err(Failure::SyntaxError(""@)),
            (Symbol::Select, Some(name)) => Ok(Request::Select(name)),
            (Symbol::Select, None) => Err(Failure::SyntaxError("Missing Identifier"@)),
            (Symbol::New, Some(name)) => Ok(Request::New(name)),
            (Symbol::New, None) => Err(Failure::SyntaxError("Missing Identifier"@)),
            (Symbol::Which, Some(topic)) => Ok(Request::Which(topic)),
            (Symbol::Which, None) => Err(Failure::SyntaxError("Missing Identifier"@)),
            _ => Err(Failure::SyntaxError("Unknown command"@)),
        }
    }
}

/// The parts of a command line: the command word, the name, and the text of
/// a document where one follows. The line is taken without the white space
/// at its ends and cut at its first two blanks; a line without a blank has no
/// parts.
pub open spec fn parts_of(line: Seq<char>) -> Option<(Seq<char>, Seq<char>, Option<Seq<char>>)> {
    let t = trimmed(line);
    match t.index_of_first(' ') {
        None => None,
        Some(i) => {
            let rest = t.skip(i + 1);
            match rest.index_of_first(' ') {
                None => Some((t.take(i), rest, None)),
                Some(j) => Some((t.take(i), rest.take(j), Some(rest.skip(j + 1)))),
            }
        },
    }
}

/// The token that a command word stands for, whatever its case.
pub open spec fn word_of(word: Seq<char>) -> Option<Symbol> {
    let upper = uppercase(word);
    if upper == "INSERT"@ {
        Some(Symbol::Insert)
    } else if upper == "GET"@ {
        Some(Symbol::Get)
    } else if upper == "DELETE"@ {
        Some(Symbol::Delete)
    } else if upper == "SELECT"@ {
        Some(Symbol::Select)
    } else if upper == "NEW"@ {
        Some(Symbol::New)
    } else if upper == "WHICH"@ {
        Some(Symbol::Which)
    } else {
        None
    }
}

/// Whether `value` is the document of a command line: the one that the text
/// stands for, or `null` where there is no text or the text is no document.
pub open spec fn is_document_of(text: Option<Seq<char>>, value: Value) -> bool {
    match text {
        Some(t) => match json_parse(t) {
            Some(document) => value == document,
            None => is_null(value),
        },
        None => is_null(value),
    }
}

/// The syntax error of a command line, if it has one: a line without parts
/// has one, and so has a line whose first part is no command word.
pub open spec fn lexing_failure(line: Seq<char>) -> Option<Failure> {
    match parts_of(line) {
        None => Some(Failure::SyntaxError(""@)),
        Some(parts) => if word_of(parts.0) is None {
            Some(Failure::SyntaxError("Unknown command"@))
        } else {
            None
        },
    }
}

/// Whether `tokens` are the tokens of a command line: the command word, the
/// name, and the document.
pub open spec fn lexes_to(line: Seq<char>, tokens: Seq<Symbol>) -> bool {
    parts_of(line) matches Some(parts) && {
        &&& tokens.len() == 3
        &&& word_of(parts.0) == Some(tokens[0])
        &&& tokens[1] == Symbol::Identifier(parts.1)
        &&& tokens[2] matches Symbol::Json(value) && is_document_of(parts.2, value)
    }
}

/// What a result of reading a command says, as a mathematical value.
pub open spec fn reading(r: Result<Command, DatabaseError>) -> Result<Request, Failure> {
    match r {
        Ok(command) => Ok(command@),
        Err(e) => Err(e@),
    }
}

/// Reads command lines. A parser keeps nothing between two lines.
pub struct Parser {}

impl Parser {
    /// A reader of command lines.
    pub fn new() -> (parser: Parser)
        ensures
            parser == (Parser {  }),
    {
        Parser {  }
    }

    /// Reads a command from a line: the tokens of the line, and then the
    /// command that they spell.
    pub fn get_command(&self, line: &str) -> (r: Result<Command, DatabaseError>)
        ensures
            match lexing_failure(line@) {
                Some(f) => reading(r) == Err::<Request, Failure>(f),
                None => exists|tokens: Seq<Symbol>| #[trigger]
                    lexes_to(line@, tokens) && reading(r) == command_of(tokens),
            },
    {
        match Parser::lexer(line) {
            Ok(tokens) => {
                let ghost symbols = tokens.deep_view();
                let r = Parser::parse(tokens);
                assert(lexes_to(line@, symbols) && reading(r) == command_of(symbols));
                r
            },
            Err(e) => Err(e),
        }
    }

    /// The token that a command word stands for, whatever its case.
    fn word(word: &str) -> (token: Option<Token>)
        ensures
            token.deep_view() == word_of(word@),
    {
        let upper = to_uppercase(word);
        if upper == "INSERT".to_owned() {
            Some(Token::INSERT)
        } else if upper == "GET".to_owned() {
            Some(Token::GET)
        } else if upper == "DELETE".to_owned() {
            Some(Token::DELETE)
        } else if upper == "SELECT".to_owned() {
            Some(Token::SELECT)
        } else if upper == "NEW".to_owned() {
            Some(Token::NEW)
        } else if upper == "WHICH".to_owned() {
            Some(Token::WHICH)
        } else {
            None
        }
    }

    /// The tokens of a command line: its command word, its name and its
    /// document, or the syntax error of the line.
    pub fn lexer(line: &str) -> (r: Result<Vec<Token>, DatabaseError>)
        ensures
            match r {
                Ok(tokens) => lexing_failure(line@) is None && lexes_to(line@, tokens.deep_view()),
                Err(e) => lexing_failure(line@) == Some(e@),
            },
    {
        let (word, name, text) = match Parser::lex_insert(line) {
            Some(parts) => parts,
            None => {
                return Err(DatabaseError::SyntaxError("".to_owned()));
            },
        };
        let first = match Parser::word(word.as_str()) {
            Some(token) => token,
            None => {
                return Err(DatabaseError::SyntaxError("Unknown command".to_owned()));
            },
        };
        let document = match text {
            Some(text) => match text_to_value(text.as_str()) {
                Ok(value) => value,
                Err(_) => null_value(),
            },
            None => null_value(),
        };
        let mut tokens: Vec<Token> = Vec::new();
        tokens.push(first);
        tokens.push(Token::IDENTIFIER(name));
        tokens.push(Token::JSON(document));
        proof {
            let symbols = tokens.deep_view();
            assert(symbols[0] == tokens@[0]@);
            assert(symbols[1] == tokens@[1]@);
            assert(symbols[2] == tokens@[2]@);
        }
        Ok(tokens)
    }

    /// The parts of a command line: the command word, the name, and the text
    /// of a document where one follows.
    pub fn lex_insert(input: &str) -> (parts: Option<(String, String, Option<String>)>)
        ensures
            parts.deep_view() == parts_of(input@),
    {
        let line = trim(input);
        let chars = chars_of(line);
        let end = chars.len();
        let ghost t = line@;
        assert(t.skip(0) =~= t);
        let i = match find_blank(&chars, 0) {
            Some(i) => i,
            None => {
                return None;
            },
        };
        assert(chars@ == t);
        let word = line.substring_char(0, i).to_owned();
        assert(t.subrange(0, i as int) =~= t.take(i as int));
        let ghost rest = t.skip(i + 1);
        match find_blank(&chars, i + 1) {
            None => {
                let name = line.substring_char(i + 1, end).to_owned();
                assert(t.subrange(i + 1, t.len() as int) =~= rest);
                Some((word, name, None))
            },
            Some(j) => {
                let name = line.substring_char(i + 1, j).to_owned();
                let text = line.substring_char(j + 1, end).to_owned();
                assert(t.subrange(i + 1, j as int) =~= rest.take(j - i - 1));
                assert(t.subrange(j + 1, t.len() as int) =~= rest.skip(j - i));
                Some((word, name, Some(text)))
            },
        }
    }

    /// A copy of the name that stands second among the tokens, if a name
    /// stands there.
    fn second_name(tokens: &Vec<Token>) -> (name: Option<String>)
        ensures
            name.deep_view() == name_after_word(tokens.deep_view()),
    {
        if tokens.len() >= 2 {
            assert(tokens.deep_view()[1] == tokens@[1]@);
            match &tokens[1] {
                Token::IDENTIFIER(name) => Some(name.clone()),
                _ => None,
            }
        } else {
            None
        }
    }

    /// The command that the tokens spell, or the syntax error that they make.
    pub fn parse(tokens: Vec<Token>) -> (r: Result<Command, DatabaseError>)
        ensures
            reading(r) == command_of(tokens.deep_view()),
    {
        if tokens.len() == 0 {
            return Err(DatabaseError::SyntaxError("Unknown command".to_owned()));
        }
        assert(tokens.deep_view()[0] == tokens@[0]@);
        let name = Parser::second_name(&tokens);
        match &tokens[0] {
            Token::INSERT => {
                if tokens.len() >= 3 {
                    assert(tokens.deep_view()[2] == tokens@[2]@);
                    match (name, &tokens[2]) {
                        (Some(key), Token::JSON(value)) => Ok(Command::INSERT(key, value_clone(value))),
                        _ => Err(DatabaseError::SyntaxError("Missing identifier or json".to_owned())),
                    }
                } else {
                    Err(DatabaseError::SyntaxError("Missing identifier or json".to_owned()))
                }
            },
            Token::GET => match name {
                Some(key) => Ok(Command::GET(key)),
                None => Err(DatabaseError::SyntaxError("Missing identifier".to_owned())),
            },
            Token::DELETE => match name {
                Some(key) => Ok(Command::DELETE(key)),
                None => Err(DatabaseError::SyntaxError("".to_owned())),
            },
            Token::SELECT => match name {
                Some(name) => Ok(Command::SELECT(name)),
                None => Err(DatabaseError::SyntaxError("Missing Identifier".to_owned())),
            },
            Token::NEW => match name {
                Some(name) => Ok(Command::NEW(name)),
                None => Err(DatabaseError::SyntaxError("Missing Identifier".to_owned())),
            },
            Token::WHICH => match name {
                Some(topic) => Ok(Command::WHICH(topic)),
                None => Err(DatabaseError::SyntaxError("Missing Identifier".to_owned())),
            },
            _ => Err(DatabaseError::SyntaxError("Unknown command".to_owned())),
        }
    }
}

impl DeepView for Token {
    type V = Symbol;

    open spec fn deep_view(&self) -> Symbol {
        self@
    }
}

} // verus!
