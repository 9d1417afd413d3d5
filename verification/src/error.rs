//! What can go wrong between two peers.

use vstd::prelude::*;

verus! {

/// An error of the transfer between two peers.
#[derive(Debug)]
pub enum DsError {
    /// Something failed, as the text tells.
    GenericError(String),
    /// A peer was not accepted, for the reason that the text tells.
    AuthenticationRejected(String),
}

/// An error, with its text as a sequence of characters.
pub enum ErrorView {
    Generic(Seq<char>),
    Rejected(Seq<char>),
}

impl View for DsError {
    type V = ErrorView;

    open spec fn view(&self) -> ErrorView {
        match self {
            DsError::GenericError(text) => ErrorView::Generic(text@),
            DsError::AuthenticationRejected(text) => ErrorView::Rejected(text@),
        }
    }
}

impl DsError {
    /// An error that tells `text`.
    pub fn generic(text: &str) -> (r: DsError)
        ensures
            r@ == ErrorView::Generic(text@),
    {
        DsError::GenericError(text.to_owned())
    }

    /// The refusal of a peer that tells `text`.
    pub fn rejected(text: &str) -> (r: DsError)
        ensures
            r@ == ErrorView::Rejected(text@),
    {
        DsError::AuthenticationRejected(text.to_owned())
    }

    /// The text of the error.
    pub fn message(&self) -> (r: &str)
        ensures
            self@ == ErrorView::Generic(r@) || self@ == ErrorView::Rejected(r@),
    {
        match self {
            DsError::GenericError(text) => text.as_str(),
            DsError::AuthenticationRejected(text) => text.as_str(),
        }
    }
}

} // verus!
