//! The one error a verb's own input can be refused with.

use vstd::prelude::*;

verus! {

/// An expected bad-input error: a malformed table, an unknown token. The
/// message is a clean one-line statement of what was wrong.
#[derive(Debug, Clone, PartialEq, Eq)]
pub struct UsageError {
    /// What was wrong, for the one line the caller prints.
    pub message: String,
}

impl UsageError {
    /// A refusal carrying `message`.
    pub fn new(message: String) -> (r: UsageError)
        ensures
            r.message@ == message@,
    {
        UsageError { message }
    }

    /// The message, as the caller prints it.
    pub fn text(&self) -> (r: &str)
        ensures
            r@ == self.message@,
    {
        self.message.as_str()
    }
}

} // verus!
