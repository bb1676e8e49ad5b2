//! The error that protocol, transfer and file decisions report.

use vstd::prelude::*;

verus! {

/// What kind of operating-system failure an I/O step ran into.
#[derive(Clone, Copy, Debug, PartialEq, Eq, Structural)]
pub enum IoErrorKind {
    NotFound,
    PermissionDenied,
    AlreadyExists,
    StorageFull,
    BrokenPipe,
    UnexpectedEof,
    ConnectionAborted,
    ConnectionReset,
    NotConnected,
    TimedOut,
    InvalidInput,
    WouldBlock,
    WriteZero,
    Other,
}

/// A refusal with a fixed message, or a failed I/O step with its kind.
#[derive(Debug, PartialEq, Eq)]
pub enum Error {
    Protocol(String),
    Io { kind: IoErrorKind, text: String },
}

/// The outcome of a decision that may be refused.
pub type Result<T> = std::result::Result<T, Error>;

impl Error {
    /// The text shown for this error.
    pub open spec fn message(self) -> Seq<char> {
        match self {
            Error::Protocol(message) => message@,
            Error::Io { text, .. } => text@,
        }
    }

    /// Whether this is a protocol refusal with exactly this message.
    pub open spec fn refuses(self, message: Seq<char>) -> bool {
        self is Protocol && self.message() == message
    }

    /// The text shown for this error.
    pub fn text(&self) -> (text: &str)
        ensures
            text@ == self.message(),
    {
        match self {
            Error::Protocol(message) => message.as_str(),
            Error::Io { text, .. } => text.as_str(),
        }
    }

    /// An error of the same kind with the same text.
    pub fn duplicate(&self) -> (copy: Error)
        ensures
            copy == *self,
    {
        match self {
            Error::Protocol(message) => Error::Protocol(message.clone()),
            Error::Io { kind, text } => Error::Io { kind: *kind, text: text.clone() },
        }
    }
}

/// Whether a decision came out as `refusal` says: accepted where there is none,
/// refused with exactly that message where there is one.
pub open spec fn decided<T>(result: Result<T>, refusal: Option<Seq<char>>) -> bool {
    match result {
        Ok(_) => refusal is None,
        Err(error) => refusal matches Some(message) && error.refuses(message),
    }
}

/// A protocol refusal with this message.
pub fn failure(message: &str) -> (error: Error)
    ensures
        error.refuses(message@),
{
    Error::Protocol(message.to_owned())
}

/// A decision accepts exactly where there is nothing to refuse for, and a refusal gives its
/// reason.
pub proof fn decisions_give_their_reason<T>(result: Result<T>, refusal: Option<Seq<char>>)
    ensures
        decided(result, refusal) <==> match result {
            Ok(_) => refusal is None,
            Err(Error::Protocol(text)) => refusal == Some(text@),
            Err(Error::Io { .. }) => false,
        },
{
}

} // verus!
