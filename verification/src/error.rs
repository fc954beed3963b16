//! The library's error type: a plain static message.

use vstd::prelude::*;

verus! {

/// Just an error message from bufcli.
#[derive(Clone, Copy, Debug)]
pub struct BufcliError {
    msg: &'static str,
}

impl BufcliError {
    /// The message this error carries.
    pub closed spec fn message_spec(&self) -> Seq<char> {
        self.msg@
    }

    pub fn new(msg: &'static str) -> (r: Self)
        ensures
            r.message_spec() == msg@,
    {
        BufcliError { msg }
    }

    /// The carried message, for callers that report the error.
    pub fn message(&self) -> (r: &'static str)
        ensures
            r@ == self.message_spec(),
    {
        self.msg
    }
}

} // verus!
