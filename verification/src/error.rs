//! Descriptive error carried by fallible operations of the library.
use vstd::prelude::*;

verus! {

/// An error message, as shown to the user.
#[derive(Debug)]
pub struct Error {
    msg: String,
}

impl Error {
    /// View of the carried message.
    pub closed spec fn view(&self) -> Seq<char> {
        self.msg@
    }

    /// Wrap a message in an `Error`.
    pub fn new(msg: String) -> (r: Error)
        ensures
            r@ == msg@,
    {
        Error { msg }
    }

    /// The message carried by this error.
    pub fn message(&self) -> (r: &str)
        ensures
            r@ == self@,
    {
        self.msg.as_str()
    }
}

} // verus!
