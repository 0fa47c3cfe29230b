//! The generated game list (`state.json`) and the errors of the store.

use vstd::prelude::*;

use crate::fmt::{decimal, decimal_chars};
use crate::model::Game;
use crate::text::{chars_of, push_all, string_from_chars};

verus! {

/// What `state.json` holds: the reconciled game list, when it was made,
/// and the problems met while making it.
#[derive(Clone, Debug, Default, PartialEq)]
pub struct State {
    pub version: u32,
    pub generated_at: String,
    pub games: Vec<Game>,
    pub errors: Vec<String>,
}

/// A failure to read or write one of the store's files.
#[derive(Clone, Debug, PartialEq, Eq)]
pub enum StoreError {
    /// The file could not be read or written.
    Io { path: String, message: String },
    /// The file's content could not be understood.
    Parse { path: String, message: String },
}

/// The text of a store error.
pub open spec fn store_error_text(e: StoreError) -> Seq<char> {
    match e {
        StoreError::Io { path, message } => "io error on "@ + path@ + ": "@ + message@,
        StoreError::Parse { path, message } => "failed to parse "@ + path@ + ": "@ + message@,
    }
}

impl StoreError {
    /// The error as a sentence (see `store_error_text`).
    pub fn message(&self) -> (r: String)
        ensures
            r@ == store_error_text(*self),
    {
        let (head, path, message) = match self {
            StoreError::Io { path, message } => ("io error on ", path, message),
            StoreError::Parse { path, message } => ("failed to parse ", path, message),
        };
        let mut out = chars_of(head);
        push_all(&mut out, &chars_of(path.as_str()));
        push_all(&mut out, &chars_of(": "));
        push_all(&mut out, &chars_of(message.as_str()));
        string_from_chars(&out)
    }
}

/// The name of the temporary sibling a file is first written to:
/// `.{name}.{pid}.tmp`, with `state` for a path without a file name.
pub open spec fn temp_name(file_name: Option<Seq<char>>, pid: u32) -> Seq<char> {
    "."@ + match file_name {
        Some(n) => n,
        None => "state"@,
    } + "."@ + decimal(pid as nat) + ".tmp"@
}

/// The temporary file name for an atomic write (see `temp_name`).
pub fn temp_file_name(file_name: Option<&str>, pid: u32) -> (r: String)
    ensures
        r@ == temp_name(
            match file_name {
                Some(n) => Some(n@),
                None => None,
            },
            pid,
        ),
{
    let mut out = chars_of(".");
    match file_name {
        Some(n) => push_all(&mut out, &chars_of(n)),
        None => push_all(&mut out, &chars_of("state")),
    }
    push_all(&mut out, &chars_of("."));
    push_all(&mut out, &decimal_chars(pid as u64));
    push_all(&mut out, &chars_of(".tmp"));
    string_from_chars(&out)
}

} // verus!
