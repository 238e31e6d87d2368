//! What can go wrong in a backend.
use vstd::prelude::*;
use vstd::string::*;

verus! {

/// An error of a backend.
#[derive(Debug)]
pub enum Error {
    /// A package database cannot be used.
    DatabaseError(String),
    /// A backend is missing.
    BackendUnavailable(String),
    /// No backend knows the package.
    PackageNotFound(String),
    /// Reading or writing failed.
    Io(String),
    /// Anything else.
    Other(String),
}

/// What an `Error` says.
#[verifier::ext_equal]
pub enum ErrorView {
    DatabaseError(Seq<char>),
    BackendUnavailable(Seq<char>),
    PackageNotFound(Seq<char>),
    Io(Seq<char>),
    Other(Seq<char>),
}

impl View for Error {
    type V = ErrorView;

    open spec fn view(&self) -> ErrorView {
        match *self {
            Error::DatabaseError(s) => ErrorView::DatabaseError(s@),
            Error::BackendUnavailable(s) => ErrorView::BackendUnavailable(s@),
            Error::PackageNotFound(s) => ErrorView::PackageNotFound(s@),
            Error::Io(s) => ErrorView::Io(s@),
            Error::Other(s) => ErrorView::Other(s@),
        }
    }
}

impl Clone for Error {
    fn clone(&self) -> (r: Self)
        ensures
            r@ == self@,
    {
        match self {
            Error::DatabaseError(s) => Error::DatabaseError(s.clone()),
            Error::BackendUnavailable(s) => Error::BackendUnavailable(s.clone()),
            Error::PackageNotFound(s) => Error::PackageNotFound(s.clone()),
            Error::Io(s) => Error::Io(s.clone()),
            Error::Other(s) => Error::Other(s.clone()),
        }
    }
}

} // verus!
