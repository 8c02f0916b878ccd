//! A plain error carrying a message.

use vstd::prelude::*;

verus! {

/// An error described by a message.
#[derive(Debug, Clone)]
pub struct Error {
    message: String,
}

impl View for Error {
    type V = Seq<char>;

    closed spec fn view(&self) -> Seq<char> {
        self.message@
    }
}

impl Error {
    /// An error with the given message.
    pub fn new(message: &str) -> (r: Error)
        ensures
            r@ == message@,
    {
        Error { message: message.to_owned() }
    }

    /// The message of this error.
    pub fn message(&self) -> (r: &str)
        ensures
            r@ == self@,
    {
        self.message.as_str()
    }
}

} // verus!
