//! The failures that parsing and construction report.

use vstd::prelude::*;

verus! {

/// Why a value could not be built from its input.
#[derive(Clone, Debug, PartialEq, Eq)]
pub enum Error {
    /// The character stands for no cell.
    InvalidCell(char),
    /// A termination or output description breaks its grammar; the part of
    /// the text that breaks it is attached.
    MalformedSpec(String),
    /// The rows form no grid: there is no row, the rows are empty, or they
    /// differ in length.
    InvalidGrid,
}

/// An [`Error`] with its text as a sequence of characters.
pub enum ErrorView {
    InvalidCell(char),
    MalformedSpec(Seq<char>),
    InvalidGrid,
}

impl View for Error {
    type V = ErrorView;

    open spec fn view(&self) -> ErrorView {
        match *self {
            Error::InvalidCell(c) => ErrorView::InvalidCell(c),
            Error::MalformedSpec(text) => ErrorView::MalformedSpec(text@),
            Error::InvalidGrid => ErrorView::InvalidGrid,
        }
    }
}

/// A result with its error, if it is one, as an [`ErrorView`].
pub open spec fn viewed<T>(result: Result<T, Error>) -> Result<T, ErrorView> {
    match result {
        Ok(value) => Ok(value),
        Err(error) => Err(error@),
    }
}

} // verus!
