//! What can go wrong, and the words in which it is told.

use vstd::prelude::*;
use crate::text::around;

verus! {

/// Why a request was refused or could not be carried out.
#[derive(Debug)]
pub enum Error {
    /// A session id is empty or longer than 64 bytes.
    IdLength,
    /// A session id holds a character that is not allowed in one.
    IdCharacters,
    /// The directory that a session is to start in is not there.
    NoDirectory(String),
    /// The socket at `path` could not be bound.
    Bind { path: String, cause: String },
    /// A step that needs the outside failed: which one, and how.
    Step { step: String, cause: String },
    /// tmux could not show a pane: what it said.
    Capture(String),
    /// There is a session with this id already.
    AlreadyExists(String),
    /// There is no such session.
    NotFound,
    /// The output of a session came to its end.
    PipeClosed,
}

impl Error {
    /// The words for an error.
    pub open spec fn text(self) -> Seq<char> {
        match self {
            Error::IdLength => "id length must be 1..=64"@,
            Error::IdCharacters => "id may only contain a-z, 0-9, '-', '_'"@,
            Error::NoDirectory(cwd) => "cwd does not exist or is not a directory: "@ + cwd@,
            Error::Bind { path, cause } => "bind \""@ + path@ + "\": "@ + cause@,
            Error::Step { step, cause } => step@ + ": "@ + cause@,
            Error::Capture(said) => "capture-pane failed: "@ + said@,
            Error::AlreadyExists(id) => "session '"@ + id@ + "' already exists"@,
            Error::NotFound => "session not found"@,
            Error::PipeClosed => "pipe-pane closed"@,
        }
    }

    /// The words for an error, as a string.
    pub fn message(&self) -> (r: String)
        ensures
            r@ == self.text(),
    {
        match self {
            Error::IdLength => "id length must be 1..=64".to_string(),
            Error::IdCharacters => "id may only contain a-z, 0-9, '-', '_'".to_string(),
            Error::NoDirectory(cwd) => {
                let mut r = "cwd does not exist or is not a directory: ".to_string();
                r.append(cwd.as_str());
                r
            },
            Error::Bind { path, cause } => {
                let mut r = around("bind \"", path.as_str(), "\": ");
                r.append(cause.as_str());
                r
            },
            Error::Step { step, cause } => around(step.as_str(), ": ", cause.as_str()),
            Error::Capture(said) => {
                let mut r = "capture-pane failed: ".to_string();
                r.append(said.as_str());
                r
            },
            Error::AlreadyExists(id) => around("session '", id.as_str(), "' already exists"),
            Error::NotFound => "session not found".to_string(),
            Error::PipeClosed => "pipe-pane closed".to_string(),
        }
    }
}

/// The words for an error hold all that is known of it, unchanged, and say what it is about.
pub proof fn errors_tell_all(a: String, b: String)
    ensures
        Error::NoDirectory(a).text() == "cwd does not exist or is not a directory: "@ + a@,
        Error::Capture(a).text() == "capture-pane failed: "@ + a@,
        Error::AlreadyExists(a).text() == "session '"@ + a@ + "' already exists"@,
        (Error::Step { step: a, cause: b }).text() == a@ + ": "@ + b@,
        (Error::Bind { path: a, cause: b }).text() == "bind \""@ + a@ + "\": "@ + b@,
        Error::IdLength.text() == "id length must be 1..=64"@,
        Error::IdCharacters.text() == "id may only contain a-z, 0-9, '-', '_'"@,
        Error::NotFound.text() == "session not found"@,
        Error::PipeClosed.text() == "pipe-pane closed"@,
{
}

} // verus!
