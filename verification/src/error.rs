//! The plain text error type shared by drivers and discovery.

use vstd::prelude::*;

verus! {

/// An error carrying a human readable message. Drivers report their failures
/// through this type, and discovery uses it for malformed motion directories.
#[derive(Debug)]
pub struct CustomError(pub String);

impl CustomError {
    /// Builds an error from a message.
    pub fn new(message: &str) -> (e: CustomError)
        ensures
            e.0@ == message@,
    {
        CustomError(message.to_owned())
    }

    /// The message carried by this error.
    pub fn message(&self) -> (m: &str)
        ensures
            m@ == self.0@,
    {
        self.0.as_str()
    }
}

} // verus!
