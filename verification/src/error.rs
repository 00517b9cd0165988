//! Errors of the library.

use vstd::prelude::*;

verus! {

/// What went wrong.
#[derive(Debug, Clone, PartialEq, Eq)]
pub enum Error {
    /// A value does not have the required form.
    Validation(String),
    /// The configuration cannot be used.
    Config(String),
    /// A session cannot be read or written.
    Session(String),
    /// There is no session at this path.
    SessionNotFound {
        /// The path.
        path: String,
    },
    /// A provider or a request failed.
    Api(String),
    /// The operating system reported an error.
    Io(String),
    /// A JSON text cannot be read or written.
    Json(String),
}

/// What an error says.
pub enum ErrorText {
    /// A value does not have the required form.
    Validation(Seq<char>),
    /// The configuration cannot be used.
    Config(Seq<char>),
    /// A session cannot be read or written.
    Session(Seq<char>),
    /// There is no session at this path.
    SessionNotFound(Seq<char>),
    /// A provider or a request failed.
    Api(Seq<char>),
    /// The operating system reported an error.
    Io(Seq<char>),
    /// A JSON text cannot be read or written.
    Json(Seq<char>),
}

impl View for Error {
    type V = ErrorText;

    open spec fn view(&self) -> ErrorText {
        match *self {
            Error::Validation(m) => ErrorText::Validation(m@),
            Error::Config(m) => ErrorText::Config(m@),
            Error::Session(m) => ErrorText::Session(m@),
            Error::SessionNotFound { path } => ErrorText::SessionNotFound(path@),
            Error::Api(m) => ErrorText::Api(m@),
            Error::Io(m) => ErrorText::Io(m@),
            Error::Json(m) => ErrorText::Json(m@),
        }
    }
}

/// What an error says is the message that it holds, under its own kind.
pub proof fn law_errors_hold_their_message(m: String)
    ensures
        Error::Validation(m)@ == ErrorText::Validation(m@),
        Error::Config(m)@ == ErrorText::Config(m@),
        Error::Session(m)@ == ErrorText::Session(m@),
        (Error::SessionNotFound { path: m })@ == ErrorText::SessionNotFound(m@),
        Error::Api(m)@ == ErrorText::Api(m@),
        Error::Io(m)@ == ErrorText::Io(m@),
        Error::Json(m)@ == ErrorText::Json(m@),
{
}

} // verus!
