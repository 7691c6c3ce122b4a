//! PDF files of pages.

pub mod ccitt;
pub mod ccitt_codes;
pub mod ccitt_modes;
pub mod ccitt_tables;
pub mod ccitt_words;
pub mod choice;
pub mod document;
pub mod image;
pub mod links;
pub mod measures;
pub mod objects;
pub mod outline;
pub mod spelling;
pub mod stream;
pub mod text_layer;
pub mod text_places;
pub mod text_words;
pub mod timing;
pub mod work;
pub mod writer;

use crate::text::text_of;
use vstd::prelude::*;

verus! {

/// Why a PDF file could not be written.
#[derive(Debug, Clone, Eq, PartialEq)]
pub struct PdfError(pub String);

/// What writing a PDF file gives.
pub type PdfResult<T> = Result<T, PdfError>;

impl View for PdfError {
    type V = Seq<char>;

    open spec fn view(&self) -> Seq<char> {
        self.0@
    }
}

impl PdfError {
    /// An error with the given message.
    #[must_use]
    pub fn new(message: &str) -> (error: Self)
        ensures
            error@ == message@,
    {
        PdfError(text_of(message))
    }

    /// The message.
    #[must_use]
    pub fn message(&self) -> (message: &str)
        ensures
            message@ == self@,
    {
        self.0.as_str()
    }
}

} // verus!
