use vstd::prelude::*;

verus! {

/// An error returned by an operation of the game, carrying a message for
/// the user.
#[derive(Debug, PartialEq, Eq)]
pub struct Error {
    pub message: String,
}

impl Error {
    /// Builds an error with the given message.
    pub fn new(message: &str) -> (e: Error)
        ensures
            e.message@ == message@,
    {
        Error { message: String::from_str(message) }
    }

    /// Builds an error from an owned message.
    pub fn from_string(message: String) -> (e: Error)
        ensures
            e.message@ == message@,
    {
        Error { message }
    }

    /// The message of the error.
    pub fn get_message(&self) -> (m: &str)
        ensures
            m@ == self.message@,
    {
        self.message.as_str()
    }
}

} // verus!
