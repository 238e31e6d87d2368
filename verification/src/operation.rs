//! Package operations (install, remove, update, etc.).
use crate::package;
use crate::package::{Package, PackageBackend, PackageView};
use crate::rounding;
use crate::text;
use vstd::prelude::*;
use vstd::string::*;

verus! {

broadcast use vstd::seq_lib::group_seq_properties;

/// The kind of operation to perform.
#[derive(Debug, Clone, Copy, PartialEq, Eq, Hash, Structural)]
pub enum OperationKind {
    /// Install a package.
    Install,
    /// Remove a package.
    Remove,
    /// Remove a package and its unneeded dependencies.
    RemoveWithDeps,
    /// Update a specific package.
    Update,
    /// Update all packages (system upgrade).
    SystemUpgrade,
    /// Sync package databases.
    SyncDatabases,
    /// Clean package cache.
    CleanCache,
    /// Remove orphan packages.
    RemoveOrphans,
}

/// What a kind of operation is called.
pub open spec fn kind_text(k: OperationKind) -> Seq<char> {
    match k {
        OperationKind::Install => "Install"@,
        OperationKind::Remove => "Remove"@,
        OperationKind::RemoveWithDeps => "Remove with dependencies"@,
        OperationKind::Update => "Update"@,
        OperationKind::SystemUpgrade => "System upgrade"@,
        OperationKind::SyncDatabases => "Sync databases"@,
        OperationKind::CleanCache => "Clean cache"@,
        OperationKind::RemoveOrphans => "Remove orphans"@,
    }
}

impl OperationKind {
    /// What this kind of operation is called.
    pub fn to_string(&self) -> (r: String)
        ensures
            r@ == kind_text(*self),
    {
        match self {
            OperationKind::Install => "Install".to_owned(),
            OperationKind::Remove => "Remove".to_owned(),
            OperationKind::RemoveWithDeps => "Remove with dependencies".to_owned(),
            OperationKind::Update => "Update".to_owned(),
            OperationKind::SystemUpgrade => "System upgrade".to_owned(),
            OperationKind::SyncDatabases => "Sync databases".to_owned(),
            OperationKind::CleanCache => "Clean cache".to_owned(),
            OperationKind::RemoveOrphans => "Remove orphans".to_owned(),
        }
    }
}

/// A package operation request.
#[derive(Debug)]
pub struct Operation {
    /// What kind of operation.
    pub kind: OperationKind,
    /// Target packages (names).
    pub packages: Vec<String>,
    /// Which backend to use.
    pub backend: PackageBackend,
}

/// What a `Operation` holds.
#[verifier::ext_equal]
pub struct OperationView {
    pub kind: OperationKind,
    pub packages: Seq<Seq<char>>,
    pub backend: PackageBackend,
}

impl View for Operation {
    type V = OperationView;

    open spec fn view(&self) -> OperationView {
        OperationView {
            kind: self.kind,
            packages: text::strings(self.packages@),
            backend: self.backend,
        }
    }
}

impl Clone for Operation {
    fn clone(&self) -> (r: Self)
        ensures
            r@ == self@,
    {
        Operation {
            kind: self.kind,
            packages: package::clone_strings(&self.packages),
            backend: self.backend,
        }
    }
}

impl Operation {
    /// An operation on packages.
    fn new(kind: OperationKind, packages: Vec<String>, backend: PackageBackend) -> (r: Operation)
        ensures
            r@ == (OperationView { kind, packages: text::strings(packages@), backend }),
    {
        Operation { kind, packages, backend }
    }

    /// An operation that names no packages.
    fn without_packages(kind: OperationKind, backend: PackageBackend) -> (r: Operation)
        ensures
            r@ == (OperationView { kind, packages: Seq::empty(), backend }),
    {
        let none: Vec<String> = Vec::new();
        assert(text::strings(none@) =~= Seq::empty());
        Operation::new(kind, none, backend)
    }

    /// Creates a new install operation.
    pub fn install(packages: Vec<String>, backend: PackageBackend) -> (r: Operation)
        ensures
            r@ == (OperationView {
                kind: OperationKind::Install,
                packages: text::strings(packages@),
                backend,
            }),
    {
        Operation::new(OperationKind::Install, packages, backend)
    }

    /// Creates a new remove operation.
    pub fn remove(packages: Vec<String>, backend: PackageBackend) -> (r: Operation)
        ensures
            r@ == (OperationView {
                kind: OperationKind::Remove,
                packages: text::strings(packages@),
                backend,
            }),
    {
        Operation::new(OperationKind::Remove, packages, backend)
    }

    /// Creates a new update operation.
    pub fn update(packages: Vec<String>, backend: PackageBackend) -> (r: Operation)
        ensures
            r@ == (OperationView {
                kind: OperationKind::Update,
                packages: text::strings(packages@),
                backend,
            }),
    {
        Operation::new(OperationKind::Update, packages, backend)
    }

    /// Creates a system upgrade operation.
    pub fn system_upgrade(backend: PackageBackend) -> (r: Operation)
        ensures
            r@ == (OperationView {
                kind: OperationKind::SystemUpgrade,
                packages: Seq::empty(),
                backend,
            }),
    {
        Operation::without_packages(OperationKind::SystemUpgrade, backend)
    }

    /// Creates a database sync operation.
    pub fn sync_databases(backend: PackageBackend) -> (r: Operation)
        ensures
            r@ == (OperationView {
                kind: OperationKind::SyncDatabases,
                packages: Seq::empty(),
                backend,
            }),
    {
        Operation::without_packages(OperationKind::SyncDatabases, backend)
    }
}

/// Status of an ongoing or completed operation.
#[derive(Debug, Clone, Copy, PartialEq, Eq, Structural)]
pub enum OperationStatus {
    /// Operation is pending/queued.
    Pending,
    /// Resolving dependencies.
    ResolvingDeps,
    /// Downloading packages.
    Downloading,
    /// Verifying package integrity.
    Verifying,
    /// Installing/removing packages.
    Processing,
    /// Running post-transaction hooks.
    RunningHooks,
    /// Operation completed successfully.
    Completed,
    /// Operation failed.
    Failed,
    /// Operation was cancelled.
    Cancelled,
}

/// Result of a completed operation.
#[derive(Debug)]
pub struct OperationResult {
    /// The operation that was performed.
    pub operation: Operation,
    /// Final status.
    pub status: OperationStatus,
    /// Packages that were affected.
    pub affected_packages: Vec<Package>,
    /// Any warnings generated.
    pub warnings: Vec<String>,
    /// Error message if failed.
    pub error: Option<String>,
    /// Duration in milliseconds.
    pub duration_ms: u64,
}

/// What a `OperationResult` holds.
#[verifier::ext_equal]
pub struct OperationResultView {
    pub operation: OperationView,
    pub status: OperationStatus,
    pub affected_packages: Seq<PackageView>,
    pub warnings: Seq<Seq<char>>,
    pub error: Option<Seq<char>>,
    pub duration_ms: u64,
}

impl View for OperationResult {
    type V = OperationResultView;

    open spec fn view(&self) -> OperationResultView {
        OperationResultView {
            operation: self.operation@,
            status: self.status,
            affected_packages: package::packages(self.affected_packages@),
            warnings: text::strings(self.warnings@),
            error: package::opt_text(self.error),
            duration_ms: self.duration_ms,
        }
    }
}

impl Clone for OperationResult {
    fn clone(&self) -> (r: Self)
        ensures
            r@ == self@,
    {
        OperationResult {
            operation: self.operation.clone(),
            status: self.status,
            affected_packages: package::clone_packages(&self.affected_packages),
            warnings: package::clone_strings(&self.warnings),
            error: package::clone_text(&self.error),
            duration_ms: self.duration_ms,
        }
    }
}

/// The result of an operation that went well.
pub open spec fn succeeded(
    operation: OperationView,
    affected: Seq<PackageView>,
    duration_ms: u64,
) -> OperationResultView {
    OperationResultView {
        operation,
        status: OperationStatus::Completed,
        affected_packages: affected,
        warnings: Seq::empty(),
        error: None,
        duration_ms,
    }
}

/// The result of an operation that failed.
pub open spec fn failed(operation: OperationView, error: Seq<char>, duration_ms: u64) -> OperationResultView {
    OperationResultView {
        operation,
        status: OperationStatus::Failed,
        affected_packages: Seq::empty(),
        warnings: Seq::empty(),
        error: Some(error),
        duration_ms,
    }
}

impl OperationResult {
    /// Creates a successful result.
    pub fn success(operation: Operation, affected: Vec<Package>, duration_ms: u64) -> (r: OperationResult)
        ensures
            r@ == succeeded(operation@, package::packages(affected@), duration_ms),
    {
        let warnings: Vec<String> = Vec::new();
        assert(text::strings(warnings@) =~= Seq::empty());
        OperationResult {
            operation,
            status: OperationStatus::Completed,
            affected_packages: affected,
            warnings,
            error: None,
            duration_ms,
        }
    }

    /// Creates a failed result.
    pub fn failure(operation: Operation, error: &str, duration_ms: u64) -> (r: OperationResult)
        ensures
            r@ == failed(operation@, error@, duration_ms),
    {
        let warnings: Vec<String> = Vec::new();
        let affected: Vec<Package> = Vec::new();
        assert(text::strings(warnings@) =~= Seq::empty());
        assert(package::packages(affected@) =~= Seq::empty());
        OperationResult {
            operation,
            status: OperationStatus::Failed,
            affected_packages: affected,
            warnings,
            error: Some(error.to_owned()),
            duration_ms,
        }
    }

    /// Returns true if the operation was successful.
    pub fn is_success(&self) -> (r: bool)
        ensures
            r == (self@.status == OperationStatus::Completed),
    {
        match self.status {
            OperationStatus::Completed => true,
            _ => false,
        }
    }

    /// Adds a warning to the result.
    pub fn with_warning(self, warning: &str) -> (r: OperationResult)
        ensures
            r@ == (OperationResultView { warnings: self@.warnings.push(warning@), ..self@ }),
    {
        let mut r = self;
        let ghost before = text::strings(r.warnings@);
        r.warnings.push(warning.to_owned());
        assert(text::strings(r.warnings@) =~= before.push(warning@));
        r
    }
}

/// Progress information for an operation.
#[derive(Debug)]
pub struct OperationProgress {
    /// Current status.
    pub status: OperationStatus,
    /// Current package being processed.
    pub current_package: Option<String>,
    /// Total packages in this operation.
    pub total_packages: usize,
    /// Packages completed so far.
    pub completed_packages: usize,
    /// Total bytes to download.
    pub total_bytes: u64,
    /// Bytes downloaded so far.
    pub downloaded_bytes: u64,
    /// Current status message.
    pub message: String,
}

/// What a `OperationProgress` holds.
#[verifier::ext_equal]
pub struct OperationProgressView {
    pub status: OperationStatus,
    pub current_package: Option<Seq<char>>,
    pub total_packages: usize,
    pub completed_packages: usize,
    pub total_bytes: u64,
    pub downloaded_bytes: u64,
    pub message: Seq<char>,
}

impl View for OperationProgress {
    type V = OperationProgressView;

    open spec fn view(&self) -> OperationProgressView {
        OperationProgressView {
            status: self.status,
            current_package: package::opt_text(self.current_package),
            total_packages: self.total_packages,
            completed_packages: self.completed_packages,
            total_bytes: self.total_bytes,
            downloaded_bytes: self.downloaded_bytes,
            message: self.message@,
        }
    }
}

impl Clone for OperationProgress {
    fn clone(&self) -> (r: Self)
        ensures
            r@ == self@,
    {
        OperationProgress {
            status: self.status,
            current_package: package::clone_text(&self.current_package),
            total_packages: self.total_packages,
            completed_packages: self.completed_packages,
            total_bytes: self.total_bytes,
            downloaded_bytes: self.downloaded_bytes,
            message: self.message.clone(),
        }
    }
}

/// The share `done / total` as a percentage from 0 to 100: both numbers, their quotient
/// and its hundredfold are held as doubles, and the whole part is taken. Of nothing
/// everything is done, and more than everything is everything.
pub open spec fn percent(done: nat, total: nat) -> nat {
    if total == 0 {
        100
    } else {
        let p = rounding::double_scaled(rounding::double(done), rounding::double(total), 100);
        if p > 100 {
            100
        } else {
            p
        }
    }
}

/// The share `done / total` as a percentage from 0 to 100.
fn percentage(done: u64, total: u64) -> (r: u8)
    ensures
        r == percent(done as nat, total as nat),
        r <= 100,
{
    if total == 0 {
        return 100;
    }
    let d: u128 = rounding::as_double(done as u128);
    let t: u128 = rounding::as_double(total as u128);
    let p: u128 = rounding::scaled_part(d, t, 100);
    if p > 100 {
        100
    } else {
        p as u8
    }
}

impl OperationProgress {
    /// Creates a new progress tracker.
    pub fn new(total_packages: usize, total_bytes: u64) -> (r: OperationProgress)
        ensures
            r@ == (OperationProgressView {
                status: OperationStatus::Pending,
                current_package: None,
                total_packages,
                completed_packages: 0,
                total_bytes,
                downloaded_bytes: 0,
                message: Seq::empty(),
            }),
    {
        OperationProgress {
            status: OperationStatus::Pending,
            current_package: None,
            total_packages,
            completed_packages: 0,
            total_bytes,
            downloaded_bytes: 0,
            message: String::new(),
        }
    }

    /// Returns the download progress as a percentage (0-100).
    pub fn download_percent(&self) -> (r: u8)
        ensures
            r == percent(self@.downloaded_bytes as nat, self@.total_bytes as nat),
            r <= 100,
    {
        percentage(self.downloaded_bytes, self.total_bytes)
    }

    /// Returns the package progress as a percentage (0-100).
    pub fn package_percent(&self) -> (r: u8)
        ensures
            r == percent(self@.completed_packages as nat, self@.total_packages as nat),
            r <= 100,
    {
        percentage(self.completed_packages as u64, self.total_packages as u64)
    }
}

/// When everything is done, the percentage is 100.
pub proof fn all_done_is_100(total: nat)
    ensures
        percent(total, total) == 100,
{
    if total > 0 {
        rounding::double_is_positive(total);
        rounding::whole_is_exact(rounding::double(total), 100);
    }
}

/// When nothing is done of something, the percentage is 0.
pub proof fn nothing_done_is_0(total: nat)
    requires
        total > 0,
    ensures
        percent(0, total) == 0,
{
    rounding::double_is_positive(total);
    rounding::nothing_scales_to_nothing(rounding::double(total), 100);
}

/// The percentage does not fall while more is done.
pub proof fn percent_never_falls(done: nat, more: nat, total: nat)
    requires
        done <= more,
    ensures
        percent(done, total) <= percent(more, total),
{
    if total > 0 {
        rounding::double_is_positive(total);
        rounding::significant_is_monotone(done, more, 1, 53);
        rounding::scaled_is_monotone(
            rounding::double(done),
            rounding::double(more),
            rounding::double(total),
            100,
        );
    }
}

/// A successful result says so and names no error, a failed one says so and names its
/// error.
pub proof fn results_say_how_it_went(
    operation: OperationView,
    affected: Seq<PackageView>,
    error: Seq<char>,
    duration_ms: u64,
)
    ensures
        succeeded(operation, affected, duration_ms).status == OperationStatus::Completed,
        succeeded(operation, affected, duration_ms).error is None,
        failed(operation, error, duration_ms).status != OperationStatus::Completed,
        failed(operation, error, duration_ms).error == Some(error),
{
}

/// The percentage of a part is the exact one or next to it, and is never above 100.
pub proof fn percent_is_the_share(done: nat, total: nat)
    requires
        done <= total,
        0 < total < 0x20_0000_0000_0000,
    ensures
        percent(done, total) <= 100,
        percent(done, total) * total < 100 * done + total,
        100 * done < (percent(done, total) + 2) * total,
{
    rounding::small_numbers_are_exact(done);
    rounding::small_numbers_are_exact(total);
    rounding::scaled_is_near(done, total, 100);
    let p = rounding::double_scaled(done, total, 100);
    if p > 100 {
        assert(p == 101) by (nonlinear_arith)
            requires
                p * total < 100 * done + total,
                done <= total,
                p > 100,
                total > 0,
        ;
        assert(false) by (nonlinear_arith)
            requires
                p * total < 100 * done + total,
                done <= total,
                p == 101,
                total > 0,
        ;
    }
}

/// What is more than all is all, and where there is nothing to do, all is done.
pub proof fn percent_ends_at_100(done: nat, total: nat)
    requires
        total <= done,
    ensures
        percent(done, total) == 100,
        percent(done, 0) == 100,
{
    all_done_is_100(total);
    percent_never_falls(total, done, total);
}

/// Every operation has a name of its own.
pub proof fn operations_are_named()
    ensures
        kind_text(OperationKind::Install) == "Install"@,
        kind_text(OperationKind::Remove) == "Remove"@,
        kind_text(OperationKind::RemoveWithDeps) == "Remove with dependencies"@,
        kind_text(OperationKind::Update) == "Update"@,
        kind_text(OperationKind::SystemUpgrade) == "System upgrade"@,
        kind_text(OperationKind::SyncDatabases) == "Sync databases"@,
        kind_text(OperationKind::CleanCache) == "Clean cache"@,
        kind_text(OperationKind::RemoveOrphans) == "Remove orphans"@,
{
}

/// A result keeps its operation, its packages and its time, and a failure affects no
/// package.
pub proof fn results_keep_what_happened(
    operation: OperationView,
    affected: Seq<PackageView>,
    error: Seq<char>,
    duration_ms: u64,
)
    ensures
        succeeded(operation, affected, duration_ms).operation == operation,
        succeeded(operation, affected, duration_ms).affected_packages == affected,
        succeeded(operation, affected, duration_ms).duration_ms == duration_ms,
        succeeded(operation, affected, duration_ms).warnings.len() == 0,
        failed(operation, error, duration_ms).operation == operation,
        failed(operation, error, duration_ms).status == OperationStatus::Failed,
        failed(operation, error, duration_ms).affected_packages.len() == 0,
        failed(operation, error, duration_ms).duration_ms == duration_ms,
        failed(operation, error, duration_ms).warnings.len() == 0,
{
}

} // verus!
