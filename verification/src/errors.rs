//! The error value that a checksum computation may report.

use vstd::prelude::*;

verus! {

/// A computation failure, carried as a human-readable message.
#[derive(Debug)]
pub struct RError {
    message: String,
}

impl View for RError {
    type V = Seq<char>;

    /// The characters of the message.
    closed spec fn view(&self) -> Seq<char> {
        self.message@
    }
}

impl RError {
    /// An error that carries a copy of `message`.
    pub fn new(message: &str) -> (e: Self)
        ensures
            e@ == message@,
    {
        RError { message: message.to_string() }
    }

    /// The message, borrowed.
    pub fn description(&self) -> (text: &str)
        ensures
            text@ == self@,
    {
        self.message.as_str()
    }

    /// The message, as the text that is shown to a user.
    pub fn message(&self) -> (text: String)
        ensures
            text@ == self@,
    {
        self.message.clone()
    }
}

} // verus!
