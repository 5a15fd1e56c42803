//! The terminal error produced when execution fails.

use vstd::prelude::*;

verus! {

/// A runtime failure, carrying a diagnostic message.
#[derive(Debug)]
pub struct VMError {
    message: String,
}

impl View for VMError {
    type V = Seq<char>;

    closed spec fn view(&self) -> Seq<char> {
        self.message@
    }
}

impl VMError {
    /// Wraps a diagnostic message.
    pub fn new(message: &str) -> (e: Self)
        ensures
            e@ == message@,
    {
        VMError { message: message.to_owned() }
    }

    /// The diagnostic message.
    pub fn message(&self) -> (m: &str)
        ensures
            m@ == self@,
    {
        self.message.as_str()
    }
}

} // verus!
