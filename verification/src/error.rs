//! What can go wrong: no word source, a source that cannot be read, a
//! position outside the word.

use vstd::prelude::*;
use vstd::string::*;

verus! {

/// The kinds of failure.
#[derive(Clone, Copy, Debug, PartialEq, Eq)]
pub enum ErrorKind {
    /// None of the places where a word list may lie holds one.
    NotFound,
    /// A word list was found, and reading it failed.
    IoFailure,
    /// A position that is not between 1 and the length of the words.
    InvalidPosition,
}

/// A failure: its kind, a message, and the text of the cause beneath it
/// where there is one.
#[derive(Debug)]
pub struct Error {
    kind: ErrorKind,
    msg: String,
    source: Option<String>,
}

/// The message of every `IoFailure`.
pub open spec fn io_message() -> Seq<char> {
    "IO Error"@
}

/// The message of every `InvalidPosition`.
pub open spec fn position_message() -> Seq<char> {
    "`pos` must be between 1 and the length of the words."@
}

/// What is shown of a failure: the message, and behind a colon and a blank
/// the cause where there is one.
pub open spec fn shown(msg: Seq<char>, source: Option<Seq<char>>) -> Seq<char> {
    match source {
        None => msg,
        Some(cause) => msg + ": "@ + cause,
    }
}

impl Error {
    /// The kind of the failure.
    pub closed spec fn spec_kind(&self) -> ErrorKind {
        self.kind
    }

    /// The message, without the cause.
    pub closed spec fn spec_msg(&self) -> Seq<char> {
        self.msg@
    }

    /// The text of the cause, if there is one.
    pub closed spec fn spec_source(&self) -> Option<Seq<char>> {
        match self.source {
            Some(cause) => Some(cause@),
            None => None,
        }
    }

    /// A failure with the message `msg` and no cause beneath it, as raised
    /// when no word list is found.
    pub fn new(msg: &str) -> (error: Error)
        ensures
            error.spec_kind() == ErrorKind::NotFound,
            error.spec_msg() == msg@,
            error.spec_source() == None::<Seq<char>>,
    {
        Error { kind: ErrorKind::NotFound, msg: String::from_str(msg), source: None }
    }

    /// The failure of a read; `cause` is what the system said of it.
    pub fn io_failure(cause: &str) -> (error: Error)
        ensures
            error.spec_kind() == ErrorKind::IoFailure,
            error.spec_msg() == io_message(),
            error.spec_source() == Some(cause@),
    {
        Error {
            kind: ErrorKind::IoFailure,
            msg: String::from_str("IO Error"),
            source: Some(String::from_str(cause)),
        }
    }

    /// The failure of a call with a position outside the word.
    pub fn invalid_position() -> (error: Error)
        ensures
            error.spec_kind() == ErrorKind::InvalidPosition,
            error.spec_msg() == position_message(),
            error.spec_source() == None::<Seq<char>>,
    {
        Error {
            kind: ErrorKind::InvalidPosition,
            msg: String::from_str("`pos` must be between 1 and the length of the words."),
            source: None,
        }
    }

    /// The kind of the failure.
    pub fn kind(&self) -> (kind: ErrorKind)
        ensures
            kind == self.spec_kind(),
    {
        self.kind
    }

    /// The text of the cause, if there is one.
    pub fn source(&self) -> (cause: Option<&String>)
        ensures
            match cause {
                Some(text) => self.spec_source() == Some(text@),
                None => self.spec_source() == None::<Seq<char>>,
            },
    {
        self.source.as_ref()
    }

    /// The failure as a line of text for the user.
    pub fn message(&self) -> (line: String)
        ensures
            line@ == shown(self.spec_msg(), self.spec_source()),
    {
        let mut line = self.msg.clone();
        match &self.source {
            None => {},
            Some(cause) => {
                line.append(": ");
                line.append(cause.as_str());
            },
        }
        line
    }
}

} // verus!
