//! The failures that the controller tells apart.

use vstd::prelude::*;
use vstd::string::*;

verus! {

/// What went wrong.
#[derive(Debug, PartialEq, Eq)]
pub enum Error {
    /// A call to the cluster failed; the text is the cluster client's account of it.
    Kube(String),
    /// The kubeconfig of the upstream cluster could not be read.
    Kubeconfig(String),
    /// The cache's database failed; first the step that failed, then the
    /// database's account of it.
    Sqlite(String, String),
    /// Something that must always hold did not.
    Internal(String),
}

/// An [`Error`] with its texts as sequences of characters.
pub enum ErrorView {
    Kube(Seq<char>),
    Kubeconfig(Seq<char>),
    Sqlite(Seq<char>, Seq<char>),
    Internal(Seq<char>),
}

impl View for Error {
    type V = ErrorView;

    open spec fn view(&self) -> ErrorView {
        match self {
            Error::Kube(cause) => ErrorView::Kube(cause@),
            Error::Kubeconfig(cause) => ErrorView::Kubeconfig(cause@),
            Error::Sqlite(step, cause) => ErrorView::Sqlite(step@, cause@),
            Error::Internal(what) => ErrorView::Internal(what@),
        }
    }
}

impl ErrorView {
    /// The line that describes the error to a reader.
    pub open spec fn message(self) -> Seq<char> {
        match self {
            ErrorView::Kube(cause) => "Kube Error: "@ + cause,
            ErrorView::Kubeconfig(cause) => "Error parsing Kubeconfig: "@ + cause,
            ErrorView::Sqlite(step, cause) => step + ": "@ + cause,
            ErrorView::Internal(what) => "Internal error: "@ + what,
        }
    }
}

impl Error {
    /// The line that describes the error to a reader.
    pub fn message(&self) -> (text: String)
        ensures
            text@ == self@.message(),
    {
        match self {
            Error::Kube(cause) => String::from_str("Kube Error: ").concat(cause.as_str()),
            Error::Kubeconfig(cause) => String::from_str("Error parsing Kubeconfig: ").concat(
                cause.as_str(),
            ),
            Error::Sqlite(step, cause) => step.clone().concat(": ").concat(cause.as_str()),
            Error::Internal(what) => String::from_str("Internal error: ").concat(what.as_str()),
        }
    }
}

} // verus!
