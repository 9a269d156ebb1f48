//! The errors that the toolkit reports.

use vstd::prelude::*;
use vstd::string::StringExecFns;

verus! {

/// Why a request was turned down.
#[derive(Debug, Clone, PartialEq, Eq)]
pub enum Error {
    /// Nothing usable was supplied.
    NullOrEmptyInput,
    /// A text could not be turned into a value, or a value into text.
    SerdeError(String),
    /// Any other refusal, with its reason.
    Other(String),
}

/// An error as a mathematical value: its kind and the characters of its
/// reason.
pub ghost enum ErrorView {
    NullOrEmptyInput,
    SerdeError(Seq<char>),
    Other(Seq<char>),
}

impl View for Error {
    type V = ErrorView;

    open spec fn view(&self) -> ErrorView {
        match self {
            Error::NullOrEmptyInput => ErrorView::NullOrEmptyInput,
            Error::SerdeError(msg) => ErrorView::SerdeError(msg@),
            Error::Other(msg) => ErrorView::Other(msg@),
        }
    }
}

impl Error {
    /// The characters of the message that `message` builds.
    pub open spec fn spec_message(self) -> Seq<char> {
        match self {
            Error::NullOrEmptyInput => "Input was null or empty"@,
            Error::SerdeError(msg) => "Serialization error: "@ + msg@,
            Error::Other(msg) => "Error: "@ + msg@,
        }
    }

    /// The error as a line of text for a person to read.
    pub fn message(&self) -> (text: String)
        ensures
            text@ == self.spec_message(),
    {
        match self {
            Error::NullOrEmptyInput => String::from_str("Input was null or empty"),
            Error::SerdeError(msg) => String::from_str("Serialization error: ").concat(msg.as_str()),
            Error::Other(msg) => String::from_str("Error: ").concat(msg.as_str()),
        }
    }
}

} // verus!
