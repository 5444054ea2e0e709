//! The one error type of the ingress.

use vstd::prelude::*;

verus! {

/// Why an operation of the ingress failed, with a message for the operator.
#[derive(Debug, Clone, PartialEq, Eq)]
pub enum IngressError {
    /// The configuration cannot be used.
    Config(String),
    /// Reading or writing a file or a socket failed.
    Io(String),
    /// The block relay refused an object or could not send it.
    Relay(String),
    /// A peer did not answer in time.
    Timeout(String),
    /// Bytes from a peer do not follow the protocol.
    Wire(String),
}

/// The mathematical value of an [`IngressError`].
pub enum ErrorView {
    Config(Seq<char>),
    Io(Seq<char>),
    Relay(Seq<char>),
    Timeout(Seq<char>),
    Wire(Seq<char>),
}

impl View for IngressError {
    type V = ErrorView;

    open spec fn view(&self) -> ErrorView {
        match self {
            IngressError::Config(text) => ErrorView::Config(text@),
            IngressError::Io(text) => ErrorView::Io(text@),
            IngressError::Relay(text) => ErrorView::Relay(text@),
            IngressError::Timeout(text) => ErrorView::Timeout(text@),
            IngressError::Wire(text) => ErrorView::Wire(text@),
        }
    }
}

impl ErrorView {
    /// The message, whatever the kind of error.
    pub open spec fn text(self) -> Seq<char> {
        match self {
            ErrorView::Config(text) => text,
            ErrorView::Io(text) => text,
            ErrorView::Relay(text) => text,
            ErrorView::Timeout(text) => text,
            ErrorView::Wire(text) => text,
        }
    }
}

impl IngressError {
    /// The message, whatever the kind of error.
    pub fn text(&self) -> (text: String)
        ensures
            text@ == self@.text(),
    {
        match self {
            IngressError::Config(text) => text.clone(),
            IngressError::Io(text) => text.clone(),
            IngressError::Relay(text) => text.clone(),
            IngressError::Timeout(text) => text.clone(),
            IngressError::Wire(text) => text.clone(),
        }
    }
}

} // verus!
