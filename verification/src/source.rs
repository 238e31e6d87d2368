//! The interface of the package backends.
use crate::error::{Error, ErrorView};
use crate::operation::{Operation, OperationKind, OperationResult, OperationResultView, OperationView};
use crate::package::Package;
use vstd::prelude::*;
use vstd::string::*;

verus! {

/// What has to be done before the result of an operation is known.
#[derive(Debug, Clone, Copy, PartialEq, Eq, Structural)]
pub enum Work {
    /// Nothing.
    Nothing,
    /// Clean the cache, keeping so many versions of every package.
    CleanCache(usize),
    /// List the packages that nothing needs any more.
    ListOrphans,
}

/// What came of it.
#[derive(Debug)]
pub enum Done {
    /// There was nothing to do.
    Nothing,
    /// The cache was cleaned and so many bytes were freed, or an error came.
    Cleaned(Result<u64, Error>),
    /// These packages are not needed any more, or an error came.
    Orphans(Result<Vec<Package>, Error>),
}

/// Whether `done` is what comes of `work`.
pub open spec fn answers(work: Work, done: Done) -> bool {
    match work {
        Work::Nothing => done is Nothing,
        Work::CleanCache(_) => done is Cleaned,
        Work::ListOrphans => done is Orphans,
    }
}

/// What the outcome of an operation holds.
pub open spec fn outcome(r: Result<OperationResult, Error>) -> Result<
    OperationResultView,
    ErrorView,
> {
    match r {
        Ok(result) => Ok(result@),
        Err(e) => Err(e@),
    }
}

/// Trait implemented by all package backends (pacman, flatpak, etc.).
pub trait PackageSource {
    /// The unique identifier of this source.
    spec fn id(&self) -> Seq<char>;

    /// The human-readable name of this source.
    spec fn title(&self) -> Seq<char>;

    /// What has to be done for an operation.
    spec fn needed(&self, kind: OperationKind) -> Work;

    /// What an operation comes to.
    spec fn concluded(&self, operation: OperationView, done: Done, duration_ms: u64) -> Result<
        OperationResultView,
        ErrorView,
    >;

    /// Returns the unique identifier for this source (e.g., "pacman", "flatpak").
    fn source_id(&self) -> (r: &str)
        ensures
            r@ == self.id(),
    ;

    /// Returns a human-readable name for this source.
    fn display_name(&self) -> (r: &str)
        ensures
            r@ == self.title(),
    ;

    /// Says what has to be done for an operation.
    fn work(&self, kind: OperationKind) -> (r: Work)
        ensures
            r == self.needed(kind),
    ;

    /// Executes a package operation, given what came of the work for it.
    fn execute(&self, operation: Operation, done: Done, duration_ms: u64) -> (r: Result<
        OperationResult,
        Error,
    >)
        requires
            answers(self.needed(operation@.kind), done),
        ensures
            outcome(r) == self.concluded(operation@, done, duration_ms),
    ;
}

} // verus!
