//! The errors of the whole system in one type.

use vstd::prelude::*;
use vstd::std_specs::convert::FromSpecImpl;
use vstd::string::StringExecFns;
use crate::index::{index_error_text, IndexError};

verus! {

/// An I/O error of the standard library, carried as it came.
#[verifier::external_type_specification]
#[verifier::external_body]
pub struct ExIoError(std::io::Error);

/// An error of `serde_json`, carried as it came.
#[verifier::external_type_specification]
#[verifier::external_body]
pub struct ExJsonError(serde_json::Error);

/// A parse error of `toml`, carried as it came.
#[verifier::external_type_specification]
#[verifier::external_body]
pub struct ExTomlError(toml::de::Error);

/// Everything that can go wrong, by origin.
#[derive(Debug)]
pub enum SorcererError {
    /// The configuration is wrong.
    ConfigError(String),
    /// A database operation failed.
    DatabaseError(String),
    /// An index operation failed.
    IndexError(String),
    /// The crawler failed.
    CrawlerError(String),
    /// An agent failed.
    AgentError(String),
    /// A query could not be run.
    QueryError(String),
    /// An I/O operation failed.
    IoError(std::io::Error),
    /// JSON could not be written or read.
    SerializationError(serde_json::Error),
    /// TOML could not be parsed.
    TomlError(toml::de::Error),
}

impl From<std::io::Error> for SorcererError {
    fn from(e: std::io::Error) -> (r: SorcererError) {
        SorcererError::IoError(e)
    }
}

impl FromSpecImpl<std::io::Error> for SorcererError {
    open spec fn obeys_from_spec() -> bool {
        true
    }

    open spec fn from_spec(e: std::io::Error) -> SorcererError {
        SorcererError::IoError(e)
    }
}

impl From<serde_json::Error> for SorcererError {
    fn from(e: serde_json::Error) -> (r: SorcererError) {
        SorcererError::SerializationError(e)
    }
}

impl FromSpecImpl<serde_json::Error> for SorcererError {
    open spec fn obeys_from_spec() -> bool {
        true
    }

    open spec fn from_spec(e: serde_json::Error) -> SorcererError {
        SorcererError::SerializationError(e)
    }
}

impl From<toml::de::Error> for SorcererError {
    fn from(e: toml::de::Error) -> (r: SorcererError) {
        SorcererError::TomlError(e)
    }
}

impl FromSpecImpl<toml::de::Error> for SorcererError {
    open spec fn obeys_from_spec() -> bool {
        true
    }

    open spec fn from_spec(e: toml::de::Error) -> SorcererError {
        SorcererError::TomlError(e)
    }
}

/// The words that open the text of each kind of error.
pub open spec fn error_prefix(e: SorcererError) -> Seq<char> {
    match e {
        SorcererError::ConfigError(_) => "Configuration error: "@,
        SorcererError::DatabaseError(_) => "Database error: "@,
        SorcererError::IndexError(_) => "Index error: "@,
        SorcererError::CrawlerError(_) => "Crawler error: "@,
        SorcererError::AgentError(_) => "Agent error: "@,
        SorcererError::QueryError(_) => "Query error: "@,
        SorcererError::IoError(_) => "IO error: "@,
        SorcererError::SerializationError(_) => "Serialization error: "@,
        SorcererError::TomlError(_) => "TOML parsing error: "@,
    }
}

/// The detail that the library itself put into the error, if it did.
pub open spec fn error_detail(e: SorcererError) -> Option<Seq<char>> {
    match e {
        SorcererError::ConfigError(msg) => Some(msg@),
        SorcererError::DatabaseError(msg) => Some(msg@),
        SorcererError::IndexError(msg) => Some(msg@),
        SorcererError::CrawlerError(msg) => Some(msg@),
        SorcererError::AgentError(msg) => Some(msg@),
        SorcererError::QueryError(msg) => Some(msg@),
        _ => None,
    }
}

/// `s` begins with `prefix`.
pub open spec fn begins_with(s: Seq<char>, prefix: Seq<char>) -> bool {
    prefix.len() <= s.len() && s.subrange(0, prefix.len() as int) == prefix
}

/// The text that `std::io::Error` displays; nothing is known of it.
#[verifier::external_body]
fn io_error_text(e: &std::io::Error) -> (s: String) {
    e.to_string()
}

/// The text that `serde_json::Error` displays; nothing is known of it.
#[verifier::external_body]
fn json_error_text(e: &serde_json::Error) -> (s: String) {
    e.to_string()
}

/// The text that `toml::de::Error` displays; nothing is known of it.
#[verifier::external_body]
fn toml_error_text(e: &toml::de::Error) -> (s: String) {
    e.to_string()
}

fn prefixed(prefix: &str, detail: &str) -> (s: String)
    ensures
        s@ == prefix@ + detail@,
        begins_with(s@, prefix@),
{
    let s = prefix.to_owned().concat(detail);
    assert(s@.subrange(0, prefix@.len() as int) =~= prefix@);
    s
}

impl SorcererError {
    /// An index error as an error of the system: a query error stays one,
    /// with its detail; any other becomes an index error with the text of
    /// what went wrong.
    pub fn from_index(e: IndexError) -> (r: SorcererError)
        ensures
            match e {
                IndexError::QueryError(msg) => r == SorcererError::QueryError(msg),
                _ => r matches SorcererError::IndexError(text) && text@ == index_error_text(e),
            },
    {
        match e {
            IndexError::QueryError(msg) => SorcererError::QueryError(msg),
            other => SorcererError::IndexError(other.message()),
        }
    }

    /// A human-readable description: the words for the kind of error,
    /// then the detail. Where the error came from outside, the detail is
    /// whatever that error displays.
    pub fn message(&self) -> (s: String)
        ensures
            begins_with(s@, error_prefix(*self)),
            error_detail(*self) matches Some(detail) ==> s@ == error_prefix(*self) + detail,
    {
        match self {
            SorcererError::ConfigError(msg) => prefixed("Configuration error: ", msg.as_str()),
            SorcererError::DatabaseError(msg) => prefixed("Database error: ", msg.as_str()),
            SorcererError::IndexError(msg) => prefixed("Index error: ", msg.as_str()),
            SorcererError::CrawlerError(msg) => prefixed("Crawler error: ", msg.as_str()),
            SorcererError::AgentError(msg) => prefixed("Agent error: ", msg.as_str()),
            SorcererError::QueryError(msg) => prefixed("Query error: ", msg.as_str()),
            SorcererError::IoError(e) => prefixed("IO error: ", io_error_text(e).as_str()),
            SorcererError::SerializationError(e) => prefixed(
                "Serialization error: ",
                json_error_text(e).as_str(),
            ),
            SorcererError::TomlError(e) => prefixed(
                "TOML parsing error: ",
                toml_error_text(e).as_str(),
            ),
        }
    }
}

} // verus!
