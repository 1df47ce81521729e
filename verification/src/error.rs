//! Why a request was refused.

use vstd::prelude::*;

use crate::strings::concat3;
use crate::text::opt;

verus! {

/// A refusal, in words for the user, with what lies behind it where that is known.
#[derive(Debug, PartialEq, Eq)]
pub struct ConfigError {
    pub message: String,
    pub cause: Option<String>,
}

/// A refusal by what it says.
#[verifier::ext_equal]
pub struct FaultView {
    pub message: Seq<char>,
    pub cause: Option<Seq<char>>,
}

impl FaultView {
    /// The refusal with its cause behind a colon.
    pub open spec fn told(self) -> Seq<char> {
        match self.cause {
            Some(c) => self.message + ": "@ + c,
            None => self.message,
        }
    }
}

/// A refusal without a further cause.
pub open spec fn fault(message: Seq<char>) -> FaultView {
    FaultView { message, cause: None }
}

impl View for ConfigError {
    type V = Seq<char>;

    open spec fn view(&self) -> Seq<char> {
        self.fault().told()
    }
}

impl ConfigError {
    pub open spec fn fault(&self) -> FaultView {
        FaultView { message: self.message@, cause: opt(self.cause) }
    }

    pub fn new(message: String) -> (r: ConfigError)
        ensures
            r@ == message@,
            r.fault() == fault(message@),
    {
        ConfigError { message, cause: None }
    }

    /// A refusal in the given words.
    pub fn of(message: &str) -> (r: ConfigError)
        ensures
            r@ == message@,
            r.fault() == fault(message@),
    {
        ConfigError { message: message.to_owned(), cause: None }
    }

    /// A refusal with what lies behind it.
    pub fn caused(message: String, cause: String) -> (r: ConfigError)
        ensures
            r@ == message@ + ": "@ + cause@,
            r.fault() == (FaultView { message: message@, cause: Some(cause@) }),
    {
        ConfigError { message, cause: Some(cause) }
    }

    /// The refusal with its cause behind a colon.
    pub fn text(&self) -> (r: String)
        ensures
            r@ == self@,
    {
        match &self.cause {
            Some(c) => concat3(&self.message, ": ", c),
            None => self.message.clone(),
        }
    }
}

} // verus!
