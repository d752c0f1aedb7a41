//! The two kinds of failure: a message alone, or a message with the place
//! in the source that it speaks of.

use crate::span::Span;
use vstd::prelude::*;

verus! {

/// What an [`Error`] stands for in contracts.
pub enum ErrorView {
    General(Seq<char>),
    Spanned(Seq<char>, Span),
}

impl ErrorView {
    /// The message of the error.
    pub open spec fn message(self) -> Seq<char> {
        match self {
            ErrorView::General(msg) => msg,
            ErrorView::Spanned(msg, _) => msg,
        }
    }
}

/// A failure: a message, and where the source text is known, the place it
/// speaks of.
#[derive(Debug)]
pub enum Error {
    General(String),
    Spanned(String, Span),
}

impl View for Error {
    type V = ErrorView;

    open spec fn view(&self) -> ErrorView {
        match self {
            Error::General(msg) => ErrorView::General(msg@),
            Error::Spanned(msg, span) => ErrorView::Spanned(msg@, *span),
        }
    }
}

impl Error {
    /// The human-readable message.
    pub fn message(&self) -> (res: &String)
        ensures
            res@ == self@.message(),
    {
        match self {
            Error::General(msg) => msg,
            Error::Spanned(msg, _) => msg,
        }
    }

    /// The span the error points at, if it has one.
    pub fn span(&self) -> (res: Option<Span>)
        ensures
            res == match self@ {
                ErrorView::General(_) => None::<Span>,
                ErrorView::Spanned(_, span) => Some(span),
            },
    {
        match self {
            Error::General(_) => None,
            Error::Spanned(_, span) => Some(*span),
        }
    }
}

} // verus!
