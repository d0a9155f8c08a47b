//! A minimal error carrier for messages that cross boundaries where richer
//! error types cannot.

use vstd::prelude::*;

verus! {

/// An error that is nothing but its message.
#[derive(Debug)]
pub struct StringError(pub String);

impl StringError {
    /// The error rendered for display: the message itself.
    pub fn display_text(&self) -> (r: String)
        ensures
            r@ == self.0@,
    {
        self.0.clone()
    }
}

} // verus!
