//! Errors of the library.

use vstd::prelude::*;

verus! {

/// Error of Markdown processing.
#[derive(Debug)]
pub enum Error {
    /// Data that cannot be processed, such as a code block without code.
    InvalidData(String),
    /// An event that is not allowed where it occurs, or a document that ends
    /// inside an element.
    InvalidContext(String),
}

/// Kind of an [`Error`].
#[derive(Clone, Copy, Debug, PartialEq, Eq, Structural)]
pub enum ErrorKind {
    InvalidData,
    InvalidContext,
}

impl Error {
    pub open spec fn kind(&self) -> ErrorKind {
        match self {
            Error::InvalidData(_) => ErrorKind::InvalidData,
            Error::InvalidContext(_) => ErrorKind::InvalidContext,
        }
    }

    /// Returns the kind of the error.
    pub fn error_kind(&self) -> (r: ErrorKind)
        ensures
            r == self.kind(),
    {
        match self {
            Error::InvalidData(_) => ErrorKind::InvalidData,
            Error::InvalidContext(_) => ErrorKind::InvalidContext,
        }
    }

    pub open spec fn message_view(&self) -> Seq<char> {
        match self {
            Error::InvalidData(s) => s@,
            Error::InvalidContext(s) => s@,
        }
    }

    /// Returns the message of the error.
    pub fn message(&self) -> (r: &String)
        ensures
            r@ == self.message_view(),
    {
        match self {
            Error::InvalidData(s) => s,
            Error::InvalidContext(s) => s,
        }
    }

    /// Returns a description of the error: its kind, then its message.
    pub fn describe(&self) -> (r: String)
        ensures
            r@ == match self.kind() {
                ErrorKind::InvalidData => "Invalid data: "@,
                ErrorKind::InvalidContext => "Invalid context: "@,
            } + self.message_view(),
    {
        let prefix = match self {
            Error::InvalidData(_) => "Invalid data: ",
            Error::InvalidContext(_) => "Invalid context: ",
        };
        proof {
            reveal_strlit("Invalid data: ");
            reveal_strlit("Invalid context: ");
        }
        let mut s = String::from_str(prefix);
        s.append(self.message().as_str());
        s
    }
}

} // verus!
