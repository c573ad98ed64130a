//! The settings document as text: what is read from and written to the
//! file that keeps it.

use vstd::prelude::*;
use crate::json::json_empty_object;
use crate::storage::key_parser::is_empty_object;

verus! {

/// The text of a settings file cannot be read as JSON, or a document cannot
/// be written as text.
#[derive(Debug, PartialEq, Eq)]
pub struct StorageError {
    pub message: String,
}

/// The document that `serde_json::from_str` reads from `text`, or the
/// message of the error that it gives.
pub uninterp spec fn json_parsed(text: Seq<char>) -> Result<serde_json::Value, Seq<char>>;

/// The text that `serde_json::to_string_pretty` writes for a document, or
/// the message of the error that it gives.
pub uninterp spec fn json_pretty(value: serde_json::Value) -> Result<Seq<char>, Seq<char>>;

/// `serde_json::from_str` for a document, with the error as its message.
#[verifier::external_body]
fn parse_document(text: &str) -> (r: Result<serde_json::Value, String>)
    ensures
        match r {
            Ok(value) => Ok(value),
            Err(message) => Err(message@),
        } == json_parsed(text@),
{
    match serde_json::from_str::<serde_json::Value>(text) {
        Ok(value) => Ok(value),
        Err(e) => Err(e.to_string()),
    }
}

/// `serde_json::to_string_pretty` for a document, with the error as its
/// message.
#[verifier::external_body]
fn print_document(value: &serde_json::Value) -> (r: Result<String, String>)
    ensures
        match r {
            Ok(text) => Ok(text@),
            Err(message) => Err(message@),
        } == json_pretty(*value),
{
    match serde_json::to_string_pretty(value) {
        Ok(text) => Ok(text),
        Err(e) => Err(e.to_string()),
    }
}

/// The settings document that a settings file holds: `content` is the text
/// of the file, or `None` where there is no file, which stands for an empty
/// object.
pub fn storage_from_text(content: Option<&str>) -> (r: Result<serde_json::Value, StorageError>)
    ensures
        match content {
            None => r is Ok && is_empty_object(r->Ok_0),
            Some(text) => match json_parsed(text@) {
                Ok(value) => r is Ok && r->Ok_0 == value,
                Err(message) => r is Err && r->Err_0.message@ == message,
            },
        },
{
    match content {
        None => Ok(json_empty_object()),
        Some(text) => match parse_document(text) {
            Ok(value) => Ok(value),
            Err(message) => Err(StorageError { message }),
        },
    }
}

/// The text to keep a settings document in its file.
pub fn storage_to_text(data: &serde_json::Value) -> (r: Result<String, StorageError>)
    ensures
        match json_pretty(*data) {
            Ok(text) => r is Ok && r->Ok_0@ == text,
            Err(message) => r is Err && r->Err_0.message@ == message,
        },
{
    match print_document(data) {
        Ok(text) => Ok(text),
        Err(message) => Err(StorageError { message }),
    }
}

} // verus!
