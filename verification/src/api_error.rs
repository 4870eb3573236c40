use vstd::prelude::*;
use vstd::string::StringExecFns;

verus! {

/// An error in the form in which it is handed to the user interface: a short
/// code and a message.
#[derive(Debug)]
pub struct ApiError {
    code: String,
    message: String,
}

impl ApiError {
    /// The code, as a sequence of characters.
    pub closed spec fn code_model(&self) -> Seq<char> {
        self.code@
    }

    /// The message, as a sequence of characters.
    pub closed spec fn message_model(&self) -> Seq<char> {
        self.message@
    }

    /// An error with this code and this message.
    pub fn new(code: &str, message: &str) -> (error: Self)
        ensures
            error.code_model() == code@,
            error.message_model() == message@,
    {
        ApiError { code: String::from_str(code), message: String::from_str(message) }
    }

    /// The code.
    pub fn code(&self) -> (code: &str)
        ensures
            code@ == self.code_model(),
    {
        self.code.as_str()
    }

    /// The message.
    pub fn message(&self) -> (message: &str)
        ensures
            message@ == self.message_model(),
    {
        self.message.as_str()
    }
}

} // verus!
