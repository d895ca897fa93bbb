//! The error taxonomy shared by every service: absent paths, keys, addresses
//! and tasks, duplicate creation, malformed input, and native I/O failures
//! reported by the host process.

use vstd::prelude::*;
use crate::strutil::dec_str_of;

verus! {

/// One error, carrying the names the message is built from.
#[derive(Debug)]
pub enum Error {
    /// A virtual path could not be resolved; holds the unresolved path.
    FileNotFound(String),
    /// A node with this name already exists under its parent.
    FileExists(String),
    /// A settings node with this name already exists under its parent.
    SettingItemExists(String),
    /// A settings key segment was absent; holds the segment and the full key.
    SettingNotExists(String, String),
    /// No endpoint is registered under this name.
    AddressNotExists(String),
    /// No task with this id exists.
    TaskNotExists(u64),
    /// A command line did not match any verb or arity; holds the tokens joined.
    InvalidArgs(String),
    /// A launch request named no program to run.
    ProgramNotFound,
    /// A payload was not valid base64; holds the offending text.
    InvalidBase64(String),
    /// A payload was not valid JSON; holds the parser's description.
    InvalidJson(String),
    /// A native operation cannot proceed; holds a description.
    IOFailure(String),
}

/// The message of a failed path resolution.
pub open spec fn msg_file_not_found(p: Seq<char>) -> Seq<char> {
    "'"@ + p + "' not found"@
}

/// The message of a duplicate node creation.
pub open spec fn msg_file_exists(p: Seq<char>) -> Seq<char> {
    "'"@ + p + "' already exists"@
}

/// The message of a duplicate settings node creation.
pub open spec fn msg_setting_item_exists(n: Seq<char>) -> Seq<char> {
    "'"@ + n + "' already exists"@
}

/// The message of a missing settings key segment.
pub open spec fn msg_setting_not_exists(n: Seq<char>, k: Seq<char>) -> Seq<char> {
    "'"@ + n + "' in '"@ + k + "' does not exist"@
}

/// The message of a missing address registration.
pub open spec fn msg_address_not_exists(a: Seq<char>) -> Seq<char> {
    "Address '"@ + a + "' does not exist"@
}

/// The message of a missing task.
pub open spec fn msg_task_not_exists(id: u64) -> Seq<char> {
    "Task "@ + dec_str_of(id as nat) + " does not exist"@
}

/// The message of a command line no verb accepts.
pub open spec fn msg_invalid_args(a: Seq<char>) -> Seq<char> {
    "Invalid args: "@ + a
}

/// The message of a launch request naming no program.
pub open spec fn msg_program_not_found() -> Seq<char> {
    "Program not found"@
}

/// The message of an undecodable base64 payload.
pub open spec fn msg_invalid_base64(t: Seq<char>) -> Seq<char> {
    "Invalid base64: "@ + t
}

/// The message of an unreadable JSON payload.
pub open spec fn msg_invalid_json(t: Seq<char>) -> Seq<char> {
    "Invalid JSON: "@ + t
}

/// The message of a failed native operation.
pub open spec fn msg_io_failure(m: Seq<char>) -> Seq<char> {
    "I/O failure: "@ + m
}

/// The message text of each error, as rendered on the wire.
pub open spec fn message_of(e: Error) -> Seq<char> {
    match e {
        Error::FileNotFound(p) => msg_file_not_found(p@),
        Error::FileExists(p) => msg_file_exists(p@),
        Error::SettingItemExists(n) => msg_setting_item_exists(n@),
        Error::SettingNotExists(n, k) => msg_setting_not_exists(n@, k@),
        Error::AddressNotExists(a) => msg_address_not_exists(a@),
        Error::TaskNotExists(id) => msg_task_not_exists(id),
        Error::InvalidArgs(a) => msg_invalid_args(a@),
        Error::ProgramNotFound => msg_program_not_found(),
        Error::InvalidBase64(t) => msg_invalid_base64(t@),
        Error::InvalidJson(t) => msg_invalid_json(t@),
        Error::IOFailure(m) => msg_io_failure(m@),
    }
}

impl Error {
    /// Renders the human-readable message reported back on the connection.
    pub fn message(&self) -> (r: String)
        ensures
            r@ == message_of(*self),
    {
        match self {
            Error::FileNotFound(p) => {
                let mut r = "'".to_owned();
                r.append(p.as_str());
                r.append("' not found");
                r
            },
            Error::FileExists(p) => {
                let mut r = "'".to_owned();
                r.append(p.as_str());
                r.append("' already exists");
                r
            },
            Error::SettingItemExists(n) => {
                let mut r = "'".to_owned();
                r.append(n.as_str());
                r.append("' already exists");
                r
            },
            Error::SettingNotExists(n, k) => {
                let mut r = "'".to_owned();
                r.append(n.as_str());
                r.append("' in '");
                r.append(k.as_str());
                r.append("' does not exist");
                r
            },
            Error::AddressNotExists(a) => {
                let mut r = "Address '".to_owned();
                r.append(a.as_str());
                r.append("' does not exist");
                r
            },
            Error::TaskNotExists(id) => {
                let mut r = "Task ".to_owned();
                let digits = crate::strutil::u64_to_string(*id);
                r.append(digits.as_str());
                r.append(" does not exist");
                r
            },
            Error::InvalidArgs(a) => {
                let mut r = "Invalid args: ".to_owned();
                r.append(a.as_str());
                r
            },
            Error::ProgramNotFound => "Program not found".to_owned(),
            Error::InvalidBase64(t) => {
                let mut r = "Invalid base64: ".to_owned();
                r.append(t.as_str());
                r
            },
            Error::InvalidJson(t) => {
                let mut r = "Invalid JSON: ".to_owned();
                r.append(t.as_str());
                r
            },
            Error::IOFailure(m) => {
                let mut r = "I/O failure: ".to_owned();
                r.append(m.as_str());
                r
            },
        }
    }
}

} // verus!
