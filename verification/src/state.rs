//! Application state management.
use crate::operation::{OperationResult, OperationResultView};
use crate::package;
use crate::package::{
    Package, PackageBackend, PackageView, SearchResult, SearchResultView, UpdateInfo, UpdateInfoView,
};
use crate::text;
use vstd::prelude::*;
use vstd::string::*;

verus! {

broadcast use vstd::seq_lib::group_seq_properties;

/// Current view in the application.
#[derive(Debug, Clone, Copy, PartialEq, Eq, Structural)]
pub enum ViewState {
    /// Showing installed packages.
    Installed,
    /// Showing available updates.
    Updates,
    /// Showing search results.
    Search,
    /// Showing flatpak apps.
    Flatpak,
    /// Showing settings.
    Settings,
    /// Showing system maintenance.
    Maintenance,
}

impl Default for ViewState {
    fn default() -> (r: ViewState)
        ensures
            r == ViewState::Installed,
    {
        ViewState::Installed
    }
}

/// Filter options for package lists.
#[derive(Debug)]
pub struct FilterOptions {
    /// Text search filter.
    pub search_text: String,
    /// Filter by backend.
    pub backend: Option<PackageBackend>,
    /// Show only explicitly installed packages. A package does not say whether it was
    /// installed explicitly, so this alone leaves none out.
    pub explicit_only: bool,
    /// Show only packages with updates.
    pub updates_only: bool,
}

/// What a `FilterOptions` holds.
#[verifier::ext_equal]
pub struct FilterOptionsView {
    pub search_text: Seq<char>,
    pub backend: Option<PackageBackend>,
    pub explicit_only: bool,
    pub updates_only: bool,
}

impl View for FilterOptions {
    type V = FilterOptionsView;

    open spec fn view(&self) -> FilterOptionsView {
        FilterOptionsView {
            search_text: self.search_text@,
            backend: self.backend,
            explicit_only: self.explicit_only,
            updates_only: self.updates_only,
        }
    }
}

impl Clone for FilterOptions {
    fn clone(&self) -> (r: Self)
        ensures
            r@ == self@,
    {
        FilterOptions {
            search_text: self.search_text.clone(),
            backend: self.backend,
            explicit_only: self.explicit_only,
            updates_only: self.updates_only,
        }
    }
}

/// No filter.
pub open spec fn no_filter() -> FilterOptionsView {
    FilterOptionsView {
        search_text: Seq::empty(),
        backend: None,
        explicit_only: false,
        updates_only: false,
    }
}

impl Default for FilterOptions {
    fn default() -> (r: FilterOptions)
        ensures
            r@ == no_filter(),
    {
        FilterOptions {
            search_text: String::new(),
            backend: None,
            explicit_only: false,
            updates_only: false,
        }
    }
}

/// A package has an update: one of its name and its backend is among the updates.
pub open spec fn has_update(updates: Seq<UpdateInfoView>, p: PackageView) -> bool {
    exists|k: int|
        0 <= k < updates.len() && (#[trigger] updates[k]).name == p.name && updates[k].backend
            == p.backend
}

/// A package passes a filter: the text stands in its name or its description, in any
/// case, it is of the backend, and it has an update where only such packages are shown.
pub open spec fn passes(f: FilterOptionsView, updates: Seq<UpdateInfoView>, p: PackageView) -> bool {
    let t = text::lowercase(f.search_text);
    &&& f.search_text.len() > 0 ==> text::has(text::lowercase(p.name), t) || text::has(
        text::lowercase(p.description),
        t,
    )
    &&& f.backend matches Some(b) ==> p.backend == b
    &&& f.updates_only ==> has_update(updates, p)
}

/// Whether two backends are the same.
fn same_backend(a: PackageBackend, b: PackageBackend) -> (r: bool)
    ensures
        r == (a == b),
{
    match (a, b) {
        (PackageBackend::Pacman, PackageBackend::Pacman) => true,
        (PackageBackend::Flatpak, PackageBackend::Flatpak) => true,
        _ => false,
    }
}

/// Whether a package has an update.
fn is_outdated(updates: &Vec<UpdateInfo>, package: &Package) -> (r: bool)
    ensures
        r == has_update(package::updates(updates@), package@),
{
    let ghost all = package::updates(updates@);
    let mut i: usize = 0;
    while i < updates.len()
        invariant
            i <= updates@.len(),
            all == package::updates(updates@),
            forall|k: int|
                0 <= k < i ==> !((#[trigger] all[k]).name == package@.name && all[k].backend
                    == package@.backend),
        decreases updates@.len() - i,
    {
        assert(all[i as int] == updates@[i as int]@);
        if text::equals(updates[i].name.as_str(), package.name.as_str()) && same_backend(
            updates[i].backend,
            package.backend,
        ) {
            return true;
        }
        i += 1;
    }
    false
}

impl FilterOptions {
    /// Whether a package passes, given the updates that there are.
    pub fn matches(&self, package: &Package, updates: &Vec<UpdateInfo>) -> (r: bool)
        ensures
            r == passes(self@, package::updates(updates@), package@),
    {
        if !self.search_text.as_str().is_empty() {
            let t = text::to_lowercase(self.search_text.as_str());
            let t = text::chars_of(t.as_str());
            let name = text::to_lowercase(package.name.as_str());
            let name = text::chars_of(name.as_str());
            let description = text::to_lowercase(package.description.as_str());
            let description = text::chars_of(description.as_str());
            if !text::contains(name.as_slice(), t.as_slice()) && !text::contains(
                description.as_slice(),
                t.as_slice(),
            ) {
                return false;
            }
        }
        let wanted = match self.backend {
            Some(b) => same_backend(package.backend, b),
            None => true,
        };
        wanted && (!self.updates_only || is_outdated(updates, package))
    }
}

/// What an optional result holds.
pub open spec fn opt_result(o: Option<OperationResult>) -> Option<OperationResultView> {
    match o {
        Some(r) => Some(r@),
        None => None,
    }
}

/// A copy of an optional result.
fn clone_result(o: &Option<OperationResult>) -> (r: Option<OperationResult>)
    ensures
        opt_result(r) == opt_result(*o),
{
    match o {
        Some(x) => Some(x.clone()),
        None => None,
    }
}

/// Application state.
#[derive(Debug)]
pub struct AppState {
    /// Current view.
    pub view: ViewState,
    /// Current filter options.
    pub filter: FilterOptions,
    /// Currently selected package (for details view).
    pub selected_package: Option<String>,
    /// List of installed packages.
    pub installed_packages: Vec<Package>,
    /// List of available updates.
    pub updates: Vec<UpdateInfo>,
    /// Search results.
    pub search_results: Vec<SearchResult>,
    /// Last operation result.
    pub last_operation: Option<OperationResult>,
    /// Whether an operation is in progress.
    pub operation_in_progress: bool,
    /// Error message to display.
    pub error_message: Option<String>,
}

/// What a `AppState` holds.
#[verifier::ext_equal]
pub struct AppStateView {
    pub view: ViewState,
    pub filter: FilterOptionsView,
    pub selected_package: Option<Seq<char>>,
    pub installed_packages: Seq<PackageView>,
    pub updates: Seq<UpdateInfoView>,
    pub search_results: Seq<SearchResultView>,
    pub last_operation: Option<OperationResultView>,
    pub operation_in_progress: bool,
    pub error_message: Option<Seq<char>>,
}

impl View for AppState {
    type V = AppStateView;

    open spec fn view(&self) -> AppStateView {
        AppStateView {
            view: self.view,
            filter: self.filter@,
            selected_package: package::opt_text(self.selected_package),
            installed_packages: package::packages(self.installed_packages@),
            updates: package::updates(self.updates@),
            search_results: package::results(self.search_results@),
            last_operation: opt_result(self.last_operation),
            operation_in_progress: self.operation_in_progress,
            error_message: package::opt_text(self.error_message),
        }
    }
}

impl Clone for AppState {
    fn clone(&self) -> (r: Self)
        ensures
            r@ == self@,
    {
        AppState {
            view: self.view,
            filter: self.filter.clone(),
            selected_package: package::clone_text(&self.selected_package),
            installed_packages: package::clone_packages(&self.installed_packages),
            updates: package::clone_updates(&self.updates),
            search_results: package::clone_results(&self.search_results),
            last_operation: clone_result(&self.last_operation),
            operation_in_progress: self.operation_in_progress,
            error_message: package::clone_text(&self.error_message),
        }
    }
}

/// The state at the start.
pub open spec fn fresh() -> AppStateView {
    AppStateView {
        view: ViewState::Installed,
        filter: no_filter(),
        selected_package: None,
        installed_packages: Seq::empty(),
        updates: Seq::empty(),
        search_results: Seq::empty(),
        last_operation: None,
        operation_in_progress: false,
        error_message: None,
    }
}

/// The packages that pass a filter, in order.
pub open spec fn filtered(
    f: FilterOptionsView,
    updates: Seq<UpdateInfoView>,
    v: Seq<PackageView>,
) -> Seq<PackageView>
    decreases v.len(),
{
    if v.len() == 0 {
        Seq::empty()
    } else if passes(f, updates, v.last()) {
        filtered(f, updates, v.drop_last()).push(v.last())
    } else {
        filtered(f, updates, v.drop_last())
    }
}

/// How many packages are of a backend.
pub open spec fn count_of(v: Seq<PackageView>, backend: PackageBackend) -> nat
    decreases v.len(),
{
    if v.len() == 0 {
        0
    } else {
        count_of(v.drop_last(), backend) + if v.last().backend == backend {
            1nat
        } else {
            0nat
        }
    }
}

/// What a list of references to packages holds.
pub open spec fn referred(v: Seq<&Package>) -> Seq<PackageView> {
    v.map_values(|p: &Package| p@)
}

impl AppState {
    /// Creates a new application state.
    pub fn new() -> (r: AppState)
        ensures
            r@ == fresh(),
    {
        let installed_packages: Vec<Package> = Vec::new();
        let updates: Vec<UpdateInfo> = Vec::new();
        let search_results: Vec<SearchResult> = Vec::new();
        assert(package::packages(installed_packages@) =~= Seq::empty());
        assert(package::updates(updates@) =~= Seq::empty());
        assert(package::results(search_results@) =~= Seq::empty());
        AppState {
            view: ViewState::Installed,
            filter: FilterOptions::default(),
            selected_package: None,
            installed_packages,
            updates,
            search_results,
            last_operation: None,
            operation_in_progress: false,
            error_message: None,
        }
    }

    /// Sets the current view.
    pub fn set_view(&mut self, view: ViewState)
        ensures
            final(self)@ == (AppStateView { view, selected_package: None, ..old(self)@ }),
    {
        self.view = view;
        self.selected_package = None;
    }

    /// Sets the search filter.
    pub fn set_search(&mut self, text: &str)
        ensures
            final(self)@ == (AppStateView {
                filter: FilterOptionsView { search_text: text@, ..old(self)@.filter },
                ..old(self)@
            }),
    {
        self.filter.search_text = text.to_owned();
    }

    /// Clears any error message.
    pub fn clear_error(&mut self)
        ensures
            final(self)@ == (AppStateView { error_message: None, ..old(self)@ }),
    {
        self.error_message = None;
    }

    /// Sets an error message.
    pub fn set_error(&mut self, message: String)
        ensures
            final(self)@ == (AppStateView { error_message: Some(message@), ..old(self)@ }),
    {
        self.error_message = Some(message);
    }

    /// Filters installed packages based on current filter options.
    pub fn filtered_installed(&self) -> (r: Vec<&Package>)
        ensures
            referred(r@) == filtered(self@.filter, self@.updates, self@.installed_packages),
    {
        let ghost all = self@.installed_packages;
        let mut r: Vec<&Package> = Vec::new();
        let mut i: usize = 0;
        assert(all.take(0) =~= Seq::empty());
        assert(referred(r@) =~= Seq::empty());
        while i < self.installed_packages.len()
            invariant
                i <= self.installed_packages@.len(),
                all == self@.installed_packages,
                referred(r@) == filtered(self@.filter, self@.updates, all.take(i as int)),
            decreases self.installed_packages@.len() - i,
        {
            let ghost before = referred(r@);
            let p = &self.installed_packages[i];
            assert(all.take(i + 1).drop_last() =~= all.take(i as int));
            assert(all.take(i + 1).last() == p@);
            if self.filter.matches(p, &self.updates) {
                r.push(p);
                assert(referred(r@) =~= before.push(p@));
            }
            i += 1;
        }
        assert(all.take(all.len() as int) =~= all);
        r
    }

    /// Gets the count of installed packages by backend.
    pub fn installed_count_by_backend(&self, backend: PackageBackend) -> (r: usize)
        ensures
            r == count_of(self@.installed_packages, backend),
    {
        let ghost all = self@.installed_packages;
        let mut count: usize = 0;
        let mut i: usize = 0;
        assert(all.take(0) =~= Seq::empty());
        while i < self.installed_packages.len()
            invariant
                i <= self.installed_packages@.len(),
                count <= i,
                all == self@.installed_packages,
                count == count_of(all.take(i as int), backend),
            decreases self.installed_packages@.len() - i,
        {
            assert(all.take(i + 1).drop_last() =~= all.take(i as int));
            assert(all.take(i + 1).last() == self.installed_packages@[i as int]@);
            if same_backend(self.installed_packages[i].backend, backend) {
                count += 1;
            }
            i += 1;
        }
        assert(all.take(all.len() as int) =~= all);
        count
    }
}

impl Default for AppState {
    fn default() -> (r: AppState)
        ensures
            r@ == fresh(),
    {
        AppState::new()
    }
}

/// Filtering leaves exactly the packages that pass.
pub proof fn filtering_is_exact(
    f: FilterOptionsView,
    updates: Seq<UpdateInfoView>,
    v: Seq<PackageView>,
)
    ensures
        forall|p: PackageView| #[trigger]
            filtered(f, updates, v).contains(p) <==> v.contains(p) && passes(f, updates, p),
        filtered(f, updates, v).len() <= v.len(),
    decreases v.len(),
{
    if v.len() > 0 {
        filtering_is_exact(f, updates, v.drop_last());
        assert(v.drop_last().push(v.last()) =~= v);
    }
}

/// Filtering twice is filtering once.
pub proof fn filtering_is_idempotent(
    f: FilterOptionsView,
    updates: Seq<UpdateInfoView>,
    v: Seq<PackageView>,
)
    ensures
        filtered(f, updates, filtered(f, updates, v)) == filtered(f, updates, v),
    decreases v.len(),
{
    if v.len() > 0 {
        filtering_is_idempotent(f, updates, v.drop_last());
        let before = filtered(f, updates, v.drop_last());
        if passes(f, updates, v.last()) {
            assert(before.push(v.last()).drop_last() =~= before);
        }
    }
}

/// Without a filter every package is shown.
pub proof fn no_filter_shows_all(updates: Seq<UpdateInfoView>, v: Seq<PackageView>)
    ensures
        filtered(no_filter(), updates, v) == v,
    decreases v.len(),
{
    if v.len() > 0 {
        no_filter_shows_all(updates, v.drop_last());
        assert(v.drop_last().push(v.last()) =~= v);
    } else {
        assert(v =~= Seq::empty());
    }
}

/// Every package is counted for exactly one backend.
pub proof fn counts_add_up(v: Seq<PackageView>)
    ensures
        count_of(v, PackageBackend::Pacman) + count_of(v, PackageBackend::Flatpak) == v.len(),
    decreases v.len(),
{
    if v.len() > 0 {
        counts_add_up(v.drop_last());
    }
}

/// Filtering by backend shows as many packages as are counted for it.
pub proof fn backend_filter_counts(
    updates: Seq<UpdateInfoView>,
    v: Seq<PackageView>,
    backend: PackageBackend,
)
    ensures
        filtered(FilterOptionsView { backend: Some(backend), ..no_filter() }, updates, v).len()
            == count_of(v, backend),
    decreases v.len(),
{
    if v.len() > 0 {
        backend_filter_counts(updates, v.drop_last(), backend);
    }
}

/// Where only packages with updates are shown, every package that is shown has one.
pub proof fn shown_packages_have_updates(
    f: FilterOptionsView,
    updates: Seq<UpdateInfoView>,
    v: Seq<PackageView>,
)
    requires
        f.updates_only,
    ensures
        forall|p: PackageView| #[trigger]
            filtered(f, updates, v).contains(p) ==> has_update(updates, p),
{
    filtering_is_exact(f, updates, v);
}

/// A package passes exactly where the text occurs, in any case, in its name or in its
/// description, it comes from the wanted source, and it has an update where only those are
/// wanted.
pub proof fn packages_pass_by_text_and_source(
    f: FilterOptionsView,
    updates: Seq<UpdateInfoView>,
    p: PackageView,
)
    ensures
        passes(f, updates, p) <==> {
            let in_text = f.search_text.len() == 0 || (exists|a: Seq<char>, b: Seq<char>|
                text::lowercase(p.name) == #[trigger] (a + text::lowercase(f.search_text) + b)) || (
            exists|a: Seq<char>, b: Seq<char>|
                text::lowercase(p.description) == #[trigger] (a + text::lowercase(f.search_text)
                    + b));
            let from_source = f.backend is None || f.backend == Some(p.backend);
            let has_new = !f.updates_only || (exists|k: int|
                0 <= k < updates.len() && (#[trigger] updates[k]).name == p.name
                    && updates[k].backend == p.backend);
            in_text && from_source && has_new
        },
{
    text::has_means_made_of(text::lowercase(p.name), text::lowercase(f.search_text));
    text::has_means_made_of(text::lowercase(p.description), text::lowercase(f.search_text));
}

/// Of the installed packages those are shown that pass, in their order.
pub proof fn packages_that_pass_are_shown(
    f: FilterOptionsView,
    updates: Seq<UpdateInfoView>,
    v: Seq<PackageView>,
)
    ensures
        filtered(f, updates, v) == v.filter(|p: PackageView| passes(f, updates, p)),
    decreases v.len(),
{
    reveal(Seq::filter);
    if v.len() > 0 {
        packages_that_pass_are_shown(f, updates, v.drop_last());
    }
}

/// The packages of a source are counted.
pub proof fn packages_of_a_source_are_counted(v: Seq<PackageView>, backend: PackageBackend)
    ensures
        count_of(v, backend) == v.filter(|p: PackageView| p.backend == backend).len(),
    decreases v.len(),
{
    reveal(Seq::filter);
    if v.len() > 0 {
        packages_of_a_source_are_counted(v.drop_last(), backend);
    }
}

/// To begin with nothing is shown, chosen, running or wrong, and nothing is filtered.
pub proof fn states_begin_empty()
    ensures
        fresh().view == ViewState::Installed,
        fresh().filter.search_text.len() == 0,
        fresh().filter.backend is None,
        !fresh().filter.explicit_only,
        !fresh().filter.updates_only,
        fresh().selected_package is None,
        fresh().installed_packages.len() == 0,
        fresh().updates.len() == 0,
        fresh().search_results.len() == 0,
        fresh().last_operation is None,
        !fresh().operation_in_progress,
        fresh().error_message is None,
{
}

} // verus!
