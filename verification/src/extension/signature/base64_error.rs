//! The error of a failed base64 decode, named without depending on the base64 crate.
use vstd::prelude::*;

verus! {

/// A base64 decode failure, with the decoder's message.
#[derive(Debug, Clone, PartialEq, Eq)]
pub struct Base64DecodeError(pub String);

impl Base64DecodeError {
    /// The decoder's message.
    pub fn message(&self) -> (r: &str)
        ensures
            r@ == self.0@,
    {
        self.0.as_str()
    }
}

} // verus!
