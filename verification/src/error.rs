//! The single error kind of the library.

use vstd::prelude::*;

verus! {

/// A validation error: a variable name or value contains one of the
/// forbidden characters `$`, `{`, `}`. Viewed as its message text,
/// which names the role of the offending text (`key` or `value`), the
/// text itself, and the forbidden character found in it.
#[derive(Debug)]
pub struct Error {
    msg: String,
}

impl View for Error {
    type V = Seq<char>;

    closed spec fn view(&self) -> Seq<char> {
        self.msg@
    }
}

impl Error {
    /// Wrap a finished message.
    pub(crate) fn new(msg: String) -> (e: Error)
        ensures
            e@ == msg@,
    {
        Error { msg }
    }

    /// The human-readable message.
    pub fn message(&self) -> (m: &str)
        ensures
            m@ == self@,
    {
        self.msg.as_str()
    }
}

} // verus!
