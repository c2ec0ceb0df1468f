//! The error that every fallible operation of the library returns.

use vstd::prelude::*;

verus! {

/// A failure, described by a human-readable message.
#[derive(Debug, PartialEq, Eq)]
pub enum Error {
    Message(String),
}

impl Error {
    /// The text of the message.
    pub open spec fn text(self) -> Seq<char> {
        match self {
            Error::Message(s) => s@,
        }
    }

    /// The message as an owned string.
    pub fn message(&self) -> (out: String)
        ensures
            out@ == self.text(),
    {
        match self {
            Error::Message(s) => s.clone(),
        }
    }
}

} // verus!
