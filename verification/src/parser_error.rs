//! The terminal error produced when decoding fails.

use vstd::prelude::*;

verus! {

/// A decode failure, carrying a diagnostic message.
#[derive(Debug)]
pub struct ParserError {
    message: String,
}

impl View for ParserError {
    type V = Seq<char>;

    closed spec fn view(&self) -> Seq<char> {
        self.message@
    }
}

impl ParserError {
    /// Wraps a diagnostic message.
    pub fn new(message: &str) -> (e: Self)
        ensures
            e@ == message@,
    {
        ParserError { message: message.to_owned() }
    }

    /// The diagnostic message.
    pub fn message(&self) -> (m: &str)
        ensures
            m@ == self@,
    {
        self.message.as_str()
    }
}

} // verus!
