//! The ways in which serving a request, or setting the server up, can fail.

use vstd::prelude::*;

verus! {

/// Why a request could not be served.
#[derive(Debug, PartialEq, Eq)]
pub enum ServeError {
    /// Neither the requested path nor its `.html` fallback exists, or the entry
    /// vanished between being found and being used.
    NotFound,
    /// The canonical path of the entry lies outside the root directory.
    PathEscape,
    /// Any other failure of the file system, with its diagnostic text.
    IoFailure(String),
}

/// The mathematical value of a [`ServeError`].
pub enum ServeErrorView {
    NotFound,
    PathEscape,
    IoFailure(Seq<char>),
}

impl View for ServeError {
    type V = ServeErrorView;

    open spec fn view(&self) -> ServeErrorView {
        match self {
            ServeError::NotFound => ServeErrorView::NotFound,
            ServeError::PathEscape => ServeErrorView::PathEscape,
            ServeError::IoFailure(text) => ServeErrorView::IoFailure(text@),
        }
    }
}

/// Why the server could not be set up. None of these can arise while a request
/// is served.
#[derive(Debug, Clone, Copy, PartialEq, Eq)]
pub enum ConfigurationError {
    /// The root directory was not given as a canonical path.
    RootNotCanonical,
    /// The page template lacks one of its three placeholders, or has them out
    /// of order.
    PlaceholderMissing,
    /// A placeholder would be left in the text around the page content, or
    /// that text begins or ends one that the content could complete.
    PlaceholderLeft,
}

} // verus!
