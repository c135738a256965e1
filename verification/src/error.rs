//! Errors as values: a message, and the cause where one is known.

use vstd::prelude::*;
use vstd::string::StringExecFns;

verus! {

/// How an error reads: the message behind `Error: `, and on a line of its
/// own the cause in brackets, where there is one.
pub open spec fn error_text(message: Seq<char>, original: Seq<char>) -> Seq<char> {
    if original.len() == 0 {
        "Error: "@ + message
    } else {
        "Error: "@ + message + "\n("@ + original + ")"@
    }
}

/// What went wrong, and why.
#[derive(Debug)]
pub struct Error {
    message: String,
    original: String,
}

impl Error {
    /// The message of the error.
    pub closed spec fn message(&self) -> Seq<char> {
        self.message@
    }

    /// The cause of the error; empty where none is known.
    pub closed spec fn original(&self) -> Seq<char> {
        self.original@
    }

    /// An error without a known cause.
    pub fn new(message: String) -> (r: Error)
        ensures
            r.message() == message@,
            r.original() == Seq::<char>::empty(),
    {
        Error { message, original: String::new() }
    }

    /// An error with its cause.
    pub fn from(message: String, original: String) -> (r: Error)
        ensures
            r.message() == message@,
            r.original() == original@,
    {
        Error { message, original }
    }

    /// The error as it is shown to the user.
    pub fn to_text(&self) -> (r: String)
        ensures
            r@ == error_text(self.message(), self.original()),
    {
        let mut r = String::from_str("Error: ");
        r.append(self.message.as_str());
        if !self.original.as_str().is_empty() {
            r.append("\n(");
            r.append(self.original.as_str());
            r.append(")");
        }
        assert(r@ =~= error_text(self.message(), self.original()));
        r
    }
}

} // verus!
