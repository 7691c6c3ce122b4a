//! Errors of the file structure.

use crate::text::text_of;
use vstd::prelude::*;

verus! {

/// Why a file could not be read.
#[derive(Debug, Clone, Eq, PartialEq)]
pub struct ParseError(pub String);

impl View for ParseError {
    type V = Seq<char>;

    open spec fn view(&self) -> Seq<char> {
        self.0@
    }
}

impl ParseError {
    /// An error with the given message.
    pub fn new(message: &str) -> (error: Self)
        ensures
            error@ == message@,
    {
        ParseError(text_of(message))
    }

    /// The message.
    #[must_use]
    pub fn message(&self) -> (message: &str)
        ensures
            message@ == self@,
    {
        self.0.as_str()
    }
}

/// A result that agrees with what is expected of it: the same value, by the given
/// relation, or an error with the expected message.
pub open spec fn agrees<T, M>(
    result: Result<T, ParseError>,
    expected: Result<M, Seq<char>>,
    same: spec_fn(T, M) -> bool,
) -> bool {
    match expected {
        Ok(value) => result is Ok && same(result->Ok_0, value),
        Err(message) => result is Err && result->Err_0@ == message,
    }
}

} // verus!
