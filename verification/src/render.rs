//! Rendering of pages.

pub mod bitmap;
pub mod compose;
pub mod copy;
pub mod dictionaries;
pub mod document;
pub mod layer;
pub mod painting;
pub mod plan;
pub mod ppm;
pub mod scaling;
pub mod sources;
pub mod steps;
pub mod tally;

use crate::text::text_of;
use vstd::prelude::*;

verus! {

/// Why a page could not be rendered.
#[derive(Debug, Clone, Eq, PartialEq)]
pub struct RenderError(pub String);

impl View for RenderError {
    type V = Seq<char>;

    open spec fn view(&self) -> Seq<char> {
        self.0@
    }
}

impl RenderError {
    /// An error with the given message.
    #[must_use]
    pub fn new(message: &str) -> (error: Self)
        ensures
            error@ == message@,
    {
        RenderError(text_of(message))
    }

    /// The message.
    #[must_use]
    pub fn message(&self) -> (message: &str)
        ensures
            message@ == self@,
    {
        self.0.as_str()
    }
}

} // verus!
