//! What the window shows, and how messages and the user change it.
use crate::jobs;
use crate::jobs::Job;
use crate::package;
use crate::terminal;
use crate::text;
use crate::ui;
use crate::ui::{PackageData, PackageDataView, StatsData, StatsDataView, UiMessage, UiMessageView};
use vstd::prelude::*;
use vstd::string::*;
use vstd::utf8::*;

verus! {

broadcast use vstd::seq_lib::group_seq_properties;

/// The status line and the progress bar.
#[derive(Debug)]
pub struct Status {
    /// Whether lists are being loaded.
    pub loading: bool,
    /// Whether work is going on.
    pub busy: bool,
    /// The status line.
    pub message: String,
    /// The progress bar's value.
    pub progress: i32,
    /// The progress bar's text.
    pub progress_text: String,
}

/// What a `Status` holds.
#[verifier::ext_equal]
pub struct StatusView {
    pub loading: bool,
    pub busy: bool,
    pub message: Seq<char>,
    pub progress: i32,
    pub progress_text: Seq<char>,
}

impl View for Status {
    type V = StatusView;

    open spec fn view(&self) -> StatusView {
        StatusView {
            loading: self.loading,
            busy: self.busy,
            message: self.message@,
            progress: self.progress,
            progress_text: self.progress_text@,
        }
    }
}

/// The terminal.
#[derive(Debug)]
pub struct Terminal {
    /// Whether it is open.
    pub shown: bool,
    /// Its title.
    pub title: String,
    /// The text in it.
    pub output: String,
    /// Whether its command has ended.
    pub done: bool,
    /// Whether its command was successful.
    pub success: bool,
    /// Output that is not in it yet.
    pub pending: Vec<char>,
}

/// What a `Terminal` holds.
#[verifier::ext_equal]
pub struct TerminalView {
    pub shown: bool,
    pub title: Seq<char>,
    pub output: Seq<char>,
    pub done: bool,
    pub success: bool,
    pub pending: Seq<char>,
}

impl View for Terminal {
    type V = TerminalView;

    open spec fn view(&self) -> TerminalView {
        TerminalView {
            shown: self.shown,
            title: self.title@,
            output: self.output@,
            done: self.done,
            success: self.success,
            pending: self.pending@,
        }
    }
}

/// The popup that follows an operation.
#[derive(Debug)]
pub struct Popup {
    /// Whether it is open.
    pub shown: bool,
    /// Whether it shows the log.
    pub logs: bool,
    /// Its title.
    pub title: String,
    /// How far the operation is.
    pub percent: i32,
    /// The stage that the operation is at.
    pub stage: String,
    /// The log.
    pub output: String,
    /// Whether it asks something.
    pub show_input: bool,
    /// What it asks.
    pub prompt: String,
    /// Whether the operation has ended.
    pub done: bool,
    /// Whether the operation was successful.
    pub success: bool,
}

/// What a `Popup` holds.
#[verifier::ext_equal]
pub struct PopupView {
    pub shown: bool,
    pub logs: bool,
    pub title: Seq<char>,
    pub percent: i32,
    pub stage: Seq<char>,
    pub output: Seq<char>,
    pub show_input: bool,
    pub prompt: Seq<char>,
    pub done: bool,
    pub success: bool,
}

impl View for Popup {
    type V = PopupView;

    open spec fn view(&self) -> PopupView {
        PopupView {
            shown: self.shown,
            logs: self.logs,
            title: self.title@,
            percent: self.percent,
            stage: self.stage@,
            output: self.output@,
            show_input: self.show_input,
            prompt: self.prompt@,
            done: self.done,
            success: self.success,
        }
    }
}

/// A package that the user has marked.
#[derive(Debug)]
pub struct Selected {
    /// Its name.
    pub name: String,
    /// Its backend.
    pub backend: i32,
    /// Whether it is installed.
    pub installed: bool,
}

/// What a `Selected` holds.
#[verifier::ext_equal]
pub struct SelectedView {
    pub name: Seq<char>,
    pub backend: i32,
    pub installed: bool,
}

impl View for Selected {
    type V = SelectedView;

    open spec fn view(&self) -> SelectedView {
        SelectedView {
            name: self.name@,
            backend: self.backend,
            installed: self.installed,
        }
    }
}

/// What a selection holds.
pub open spec fn selections(v: Seq<Selected>) -> Seq<SelectedView> {
    v.map_values(|s: Selected| s@)
}

/// The lists of packages.
#[derive(Debug)]
pub struct Lists {
    /// The page of installed packages.
    pub installed_packages: Vec<PackageData>,
    /// The updates.
    pub update_packages: Vec<PackageData>,
    /// What a search found that is installed.
    pub search_installed: Vec<PackageData>,
    /// What a search found that is not installed.
    pub search_available: Vec<PackageData>,
    /// The Flatpak applications.
    pub flatpak_packages: Vec<PackageData>,
    /// The page of the category.
    pub category_packages: Vec<PackageData>,
    /// The page of the repository.
    pub repo_packages: Vec<PackageData>,
    /// All installed packages.
    pub full_installed: Vec<PackageData>,
    /// All of the category.
    pub full_category: Vec<PackageData>,
    /// All of the repository.
    pub full_repo: Vec<PackageData>,
    /// The package whose details are open.
    pub detail_package: PackageData,
    /// The figures of the overview.
    pub stats: StatsData,
    /// The page that is shown.
    pub current_page: i32,
    /// How many pages there are.
    pub total_pages: i32,
    /// What the user has marked.
    pub selected: Vec<Selected>,
    /// How many the user has marked.
    pub selected_count: i32,
    /// How many of them are installed.
    pub selected_installed_count: i32,
    /// How many of them are not.
    pub selected_uninstalled_count: i32,
}

/// What a `Lists` holds.
#[verifier::ext_equal]
pub struct ListsView {
    pub installed_packages: Seq<PackageDataView>,
    pub update_packages: Seq<PackageDataView>,
    pub search_installed: Seq<PackageDataView>,
    pub search_available: Seq<PackageDataView>,
    pub flatpak_packages: Seq<PackageDataView>,
    pub category_packages: Seq<PackageDataView>,
    pub repo_packages: Seq<PackageDataView>,
    pub full_installed: Seq<PackageDataView>,
    pub full_category: Seq<PackageDataView>,
    pub full_repo: Seq<PackageDataView>,
    pub detail_package: PackageDataView,
    pub stats: StatsDataView,
    pub current_page: i32,
    pub total_pages: i32,
    pub selected: Seq<SelectedView>,
    pub selected_count: i32,
    pub selected_installed_count: i32,
    pub selected_uninstalled_count: i32,
}

impl View for Lists {
    type V = ListsView;

    open spec fn view(&self) -> ListsView {
        ListsView {
            installed_packages: ui::rows(self.installed_packages@),
            update_packages: ui::rows(self.update_packages@),
            search_installed: ui::rows(self.search_installed@),
            search_available: ui::rows(self.search_available@),
            flatpak_packages: ui::rows(self.flatpak_packages@),
            category_packages: ui::rows(self.category_packages@),
            repo_packages: ui::rows(self.repo_packages@),
            full_installed: ui::rows(self.full_installed@),
            full_category: ui::rows(self.full_category@),
            full_repo: ui::rows(self.full_repo@),
            detail_package: self.detail_package@,
            stats: self.stats@,
            current_page: self.current_page,
            total_pages: self.total_pages,
            selected: selections(self.selected@),
            selected_count: self.selected_count,
            selected_installed_count: self.selected_installed_count,
            selected_uninstalled_count: self.selected_uninstalled_count,
        }
    }
}

/// The question whether to install a package from a file.
#[derive(Debug)]
pub struct LocalInstall {
    /// Whether it is asked.
    pub shown: bool,
    /// The package.
    pub package: PackageData,
    /// The file.
    pub path: String,
}

/// What a `LocalInstall` holds.
#[verifier::ext_equal]
pub struct LocalInstallView {
    pub shown: bool,
    pub package: PackageDataView,
    pub path: Seq<char>,
}

impl View for LocalInstall {
    type V = LocalInstallView;

    open spec fn view(&self) -> LocalInstallView {
        LocalInstallView {
            shown: self.shown,
            package: self.package@,
            path: self.path@,
        }
    }
}

/// The window.
#[derive(Debug)]
pub struct Window {
    /// The view that is open.
    pub view: i32,
    /// What the user searches for.
    pub search_text: String,
    /// The repository that is open.
    pub repo_name: String,
    /// The lists of packages.
    pub lists: Lists,
    /// The status line.
    pub status: Status,
    /// The terminal.
    pub terminal: Terminal,
    /// The popup.
    pub popup: Popup,
    /// The question about a local file.
    pub local: LocalInstall,
}

/// What a `Window` holds.
pub struct WindowView {
    pub view: i32,
    pub search_text: Seq<char>,
    pub repo_name: Seq<char>,
    pub lists: ListsView,
    pub status: StatusView,
    pub terminal: TerminalView,
    pub popup: PopupView,
    pub local: LocalInstallView,
}

impl View for Window {
    type V = WindowView;

    open spec fn view(&self) -> WindowView {
        WindowView {
            view: self.view,
            search_text: self.search_text@,
            repo_name: self.repo_name@,
            lists: self.lists@,
            status: self.status@,
            terminal: self.terminal@,
            popup: self.popup@,
            local: self.local@,
        }
    }
}

/// Whether a row is of a package.
pub open spec fn is_of(p: PackageDataView, name: Seq<char>, backend: i32) -> bool {
    p.name == name && p.backend == backend
}

/// The place of the first row of a package at or behind `from`.
pub open spec fn place_from(
    v: Seq<PackageDataView>,
    name: Seq<char>,
    backend: i32,
    from: int,
) -> Option<int>
    decreases v.len() - from,
{
    if from < 0 || from >= v.len() {
        None
    } else if is_of(v[from], name, backend) {
        Some(from)
    } else {
        place_from(v, name, backend, from + 1)
    }
}

/// The place of the first row of a package.
pub open spec fn place(v: Seq<PackageDataView>, name: Seq<char>, backend: i32) -> Option<int> {
    place_from(v, name, backend, 0)
}

/// The first row of a package.
pub open spec fn first_of(v: Seq<PackageDataView>, name: Seq<char>, backend: i32) -> Option<
    PackageDataView,
> {
    match place(v, name, backend) {
        Some(i) => Some(v[i]),
        None => None,
    }
}

/// The place that was found is that of the first row of the package.
pub proof fn place_is_first(v: Seq<PackageDataView>, name: Seq<char>, backend: i32, from: int)
    requires
        from >= 0,
    ensures
        match place_from(v, name, backend, from) {
            Some(i) => from <= i < v.len() && is_of(v[i], name, backend) && (forall|k: int|
                from <= k < i ==> !is_of(#[trigger] v[k], name, backend)),
            None => forall|k: int|
                from <= k < v.len() ==> !is_of(#[trigger] v[k], name, backend),
        },
    decreases v.len() - from,
{
    if from < v.len() && !is_of(v[from], name, backend) {
        place_is_first(v, name, backend, from + 1);
    }
}

/// The place of the first row of a package.
fn find_row(v: &Vec<PackageData>, name: &str, backend: i32) -> (r: Option<usize>)
    ensures
        text::position(r) == place(ui::rows(v@), name@, backend),
        r matches Some(i) ==> i < v@.len(),
{
    let ghost all = ui::rows(v@);
    let mut i: usize = 0;
    while i < v.len()
        invariant
            i <= v@.len(),
            all == ui::rows(v@),
            place(all, name@, backend) == place_from(all, name@, backend, i as int),
        decreases v@.len() - i,
    {
        assert(all[i as int] == v@[i as int]@);
        if text::equals(v[i].name.as_str(), name) && v[i].backend == backend {
            return Some(i);
        }
        i += 1;
    }
    None
}

/// How many pages of 50 rows a list takes, at least one.
pub open spec fn page_count(n: nat) -> i32 {
    if n == 0 {
        1
    } else {
        ((n + 49) / 50) as i32
    }
}

/// A page of 50 rows, counted from zero. Behind the last page there are no rows.
pub open spec fn page_of(v: Seq<PackageDataView>, page: nat) -> Seq<PackageDataView> {
    let start = 50 * page;
    if start >= v.len() {
        Seq::empty()
    } else if start + 50 >= v.len() {
        v.skip(start as int)
    } else {
        v.subrange(start as int, (start + 50) as int)
    }
}

/// How many pages a list takes.
fn count_pages(n: usize) -> (r: i32)
    ensures
        r == page_count(n as nat),
{
    if n == 0 {
        1
    } else {
        let full: usize = (n - 1) / 50;
        assert(full + 1 == (n + 49) / 50);
        (full + 1) as i32
    }
}

/// A page of 50 rows.
fn cut_page(v: &Vec<PackageData>, page: u64) -> (r: Vec<PackageData>)
    ensures
        ui::rows(r@) == page_of(ui::rows(v@), page as nat),
{
    let n: usize = v.len();
    let start: u128 = 50 * page as u128;
    if start >= n as u128 {
        let r: Vec<PackageData> = Vec::new();
        assert(ui::rows(r@) =~= Seq::empty());
        r
    } else {
        let from: usize = start as usize;
        let to: usize = if n - from <= 50 {
            n
        } else {
            from + 50
        };
        let r = ui::copy_rows(v, from, to);
        assert(ui::rows(r@) =~= page_of(ui::rows(v@), page as nat));
        r
    }
}

/// The pages of a list up to `n`, one behind the other.
pub open spec fn first_pages(v: Seq<PackageDataView>, n: nat) -> Seq<PackageDataView>
    decreases n,
{
    if n == 0 {
        Seq::empty()
    } else {
        first_pages(v, (n - 1) as nat) + page_of(v, (n - 1) as nat)
    }
}

/// The pages show every row once, in order.
pub proof fn pages_cover(v: Seq<PackageDataView>, n: nat)
    ensures
        first_pages(v, n) == (if 50 * n >= v.len() {
            v
        } else {
            v.take(50 * n as int)
        }),
    decreases n,
{
    if n > 0 {
        pages_cover(v, (n - 1) as nat);
        let start = 50 * (n - 1);
        if start >= v.len() {
            assert(v + page_of(v, (n - 1) as nat) =~= v);
        } else if start + 50 >= v.len() {
            assert(v.take(start) + v.skip(start) =~= v);
            assert(first_pages(v, n) =~= v);
        } else {
            assert(v.take(start) + v.subrange(start, start + 50) =~= v.take(50 * n as int));
        }
    } else {
        if v.len() == 0 {
            assert(v =~= Seq::empty());
        } else {
            assert(v.take(0) =~= Seq::empty());
        }
    }
}

/// All pages together are the whole list, and no page holds more than 50 rows.
pub proof fn all_pages_are_the_list(v: Seq<PackageDataView>, page: nat)
    requires
        v.len() <= 0x7fff_ffff,
    ensures
        first_pages(v, page_count(v.len()) as nat) == v,
        page_of(v, page).len() <= 50,
        page >= page_count(v.len()) ==> page_of(v, page).len() == 0,
{
    pages_cover(v, page_count(v.len()) as nat);
    if v.len() > 0 {
        let q = (v.len() + 49) / 50;
        assert(50 * q >= v.len());
        assert(page_count(v.len()) == q);
    }
}

/// The rows that are installed, or that are not.
pub open spec fn having(v: Seq<PackageDataView>, installed: bool) -> Seq<PackageDataView>
    decreases v.len(),
{
    if v.len() == 0 {
        Seq::empty()
    } else if v.last().installed == installed {
        having(v.drop_last(), installed).push(v.last())
    } else {
        having(v.drop_last(), installed)
    }
}

/// The rows that are installed, or that are not.
fn pick_installed(v: &Vec<PackageData>, installed: bool) -> (r: Vec<PackageData>)
    ensures
        ui::rows(r@) == having(ui::rows(v@), installed),
{
    let ghost all = ui::rows(v@);
    let mut r: Vec<PackageData> = Vec::new();
    let mut i: usize = 0;
    assert(all.take(0) =~= Seq::empty());
    assert(ui::rows(r@) =~= Seq::empty());
    while i < v.len()
        invariant
            i <= v@.len(),
            all == ui::rows(v@),
            ui::rows(r@) == having(all.take(i as int), installed),
        decreases v@.len() - i,
    {
        let ghost before = ui::rows(r@);
        assert(all.take(i + 1).drop_last() =~= all.take(i as int));
        assert(all.take(i + 1).last() == v@[i as int]@);
        if v[i].installed == installed {
            r.push(v[i].clone());
            assert(ui::rows(r@) =~= before.push(v@[i as int]@));
        }
        i += 1;
    }
    assert(all.take(all.len() as int) =~= all);
    r
}

/// Every search result is shown on exactly one of the two sides.
pub proof fn results_are_parted(v: Seq<PackageDataView>)
    ensures
        having(v, true).len() + having(v, false).len() == v.len(),
        forall|p: PackageDataView| #[trigger]
            v.contains(p) <==> having(v, p.installed).contains(p),
        forall|p: PackageDataView, side: bool| #[trigger]
            having(v, side).contains(p) ==> p.installed == side,
    decreases v.len(),
{
    if v.len() > 0 {
        results_are_parted(v.drop_last());
        assert(v.drop_last().push(v.last()) =~= v);
    }
}

/// The details after the lists have been loaded: those of the first installed package or
/// application of the same name and backend; where there is none, the package is no
/// longer installed.
pub open spec fn refreshed(
    detail: PackageDataView,
    installed: Seq<PackageDataView>,
    flatpak: Seq<PackageDataView>,
) -> PackageDataView {
    if detail.name.len() == 0 {
        detail
    } else {
        match first_of(installed, detail.name, detail.backend) {
            Some(p) => p,
            None => match first_of(flatpak, detail.name, detail.backend) {
                Some(p) => p,
                None => PackageDataView { installed: false, ..detail },
            },
        }
    }
}

/// The details after a search.
pub open spec fn found_again(detail: PackageDataView, results: Seq<PackageDataView>) -> PackageDataView {
    if detail.name.len() == 0 {
        detail
    } else {
        match first_of(results, detail.name, detail.backend) {
            Some(p) => p,
            None => detail,
        }
    }
}

/// The lists after they have been loaded.
pub open spec fn with_loaded(
    l: ListsView,
    installed: Seq<PackageDataView>,
    updates: Seq<PackageDataView>,
    flatpak: Seq<PackageDataView>,
    stats: StatsDataView,
) -> ListsView {
    ListsView {
        detail_package: refreshed(l.detail_package, installed, flatpak),
        full_installed: installed,
        installed_packages: page_of(installed, 0),
        current_page: 0,
        total_pages: page_count(installed.len()),
        update_packages: updates,
        flatpak_packages: flatpak,
        stats,
        ..l
    }
}

/// The lists after a search.
pub open spec fn with_results(l: ListsView, results: Seq<PackageDataView>) -> ListsView {
    ListsView {
        detail_package: found_again(l.detail_package, results),
        search_installed: having(results, true),
        search_available: having(results, false),
        ..l
    }
}

/// The lists with those of a category.
pub open spec fn with_category(l: ListsView, v: Seq<PackageDataView>) -> ListsView {
    ListsView {
        full_category: v,
        category_packages: page_of(v, 0),
        current_page: 0,
        total_pages: page_count(v.len()),
        ..l
    }
}

/// The lists with those of a repository.
pub open spec fn with_repo(l: ListsView, v: Seq<PackageDataView>) -> ListsView {
    ListsView {
        full_repo: v,
        repo_packages: page_of(v, 0),
        current_page: 0,
        total_pages: page_count(v.len()),
        ..l
    }
}

/// The lists with another page of the list that a view shows: view 0 the installed
/// packages, view 7 the category, view 8 the repository.
pub open spec fn with_page(l: ListsView, view: i32, page: nat) -> ListsView {
    if view == 0 {
        ListsView {
            installed_packages: page_of(l.full_installed, page),
            total_pages: page_count(l.full_installed.len()),
            ..l
        }
    } else if view == 7 {
        ListsView {
            category_packages: page_of(l.full_category, page),
            total_pages: page_count(l.full_category.len()),
            ..l
        }
    } else if view == 8 {
        ListsView {
            repo_packages: page_of(l.full_repo, page),
            total_pages: page_count(l.full_repo.len()),
            ..l
        }
    } else {
        l
    }
}

/// Rows, with the first one of a package marked or not.
pub open spec fn mark(
    v: Seq<PackageDataView>,
    name: Seq<char>,
    backend: i32,
    selected: bool,
) -> Seq<PackageDataView> {
    match place(v, name, backend) {
        Some(i) => v.update(i, PackageDataView { selected, ..v[i] }),
        None => v,
    }
}

/// Marks the first row of a package, or takes its mark away.
pub fn update_selection_in_model(
    v: &mut Vec<PackageData>,
    name: &str,
    backend: i32,
    selected: bool,
)
    ensures
        ui::rows(final(v)@) == mark(ui::rows(old(v)@), name@, backend, selected),
{
    let ghost before = ui::rows(v@);
    match find_row(v, name, backend) {
        Some(i) => {
            let mut row = v[i].clone();
            row.selected = selected;
            v.set(i, row);
            assert(ui::rows(v@) =~= before.update(i as int, row@));
            assert(row@ =~= (PackageDataView { selected, ..before[i as int] }));
        },
        None => {},
    }
}

/// The lists, with the rows of a package marked or not, in each list the first.
pub open spec fn with_mark(l: ListsView, name: Seq<char>, backend: i32, selected: bool) -> ListsView {
    ListsView {
        installed_packages: mark(l.installed_packages, name, backend, selected),
        update_packages: mark(l.update_packages, name, backend, selected),
        search_installed: mark(l.search_installed, name, backend, selected),
        search_available: mark(l.search_available, name, backend, selected),
        flatpak_packages: mark(l.flatpak_packages, name, backend, selected),
        category_packages: mark(l.category_packages, name, backend, selected),
        repo_packages: mark(l.repo_packages, name, backend, selected),
        ..l
    }
}

/// Whether a package is installed, as the first list that has it says.
pub open spec fn shown_installed(l: ListsView, name: Seq<char>, backend: i32) -> bool {
    if first_of(l.installed_packages, name, backend) is Some {
        first_of(l.installed_packages, name, backend).unwrap().installed
    } else if first_of(l.update_packages, name, backend) is Some {
        first_of(l.update_packages, name, backend).unwrap().installed
    } else if first_of(l.search_installed, name, backend) is Some {
        first_of(l.search_installed, name, backend).unwrap().installed
    } else if first_of(l.search_available, name, backend) is Some {
        first_of(l.search_available, name, backend).unwrap().installed
    } else if first_of(l.flatpak_packages, name, backend) is Some {
        first_of(l.flatpak_packages, name, backend).unwrap().installed
    } else if first_of(l.category_packages, name, backend) is Some {
        first_of(l.category_packages, name, backend).unwrap().installed
    } else if first_of(l.repo_packages, name, backend) is Some {
        first_of(l.repo_packages, name, backend).unwrap().installed
    } else {
        false
    }
}

/// Whether a selection has a package.
pub open spec fn has_selected(v: Seq<SelectedView>, name: Seq<char>, backend: i32) -> bool {
    exists|i: int| 0 <= i < v.len() && #[trigger] v[i].name == name && v[i].backend == backend
}

/// A selection without a package.
pub open spec fn deselected(v: Seq<SelectedView>, name: Seq<char>, backend: i32) -> Seq<SelectedView>
    decreases v.len(),
{
    if v.len() == 0 {
        Seq::empty()
    } else if v.last().name == name && v.last().backend == backend {
        deselected(v.drop_last(), name, backend)
    } else {
        deselected(v.drop_last(), name, backend).push(v.last())
    }
}

/// A selection after a package was marked or its mark taken away.
pub open spec fn toggled(
    v: Seq<SelectedView>,
    name: Seq<char>,
    backend: i32,
    selected: bool,
    installed: bool,
) -> Seq<SelectedView> {
    if !selected {
        deselected(v, name, backend)
    } else if has_selected(v, name, backend) {
        v
    } else {
        v.push(SelectedView { name, backend, installed })
    }
}

/// The packages of a selection that are installed, or that are not.
pub open spec fn chosen(v: Seq<SelectedView>, installed: bool) -> Seq<SelectedView>
    decreases v.len(),
{
    if v.len() == 0 {
        Seq::empty()
    } else if v.last().installed == installed {
        chosen(v.drop_last(), installed).push(v.last())
    } else {
        chosen(v.drop_last(), installed)
    }
}

/// A package stands at most once in a selection.
pub open spec fn distinct(v: Seq<SelectedView>) -> bool {
    forall|i: int, j: int|
        #![trigger v[i], v[j]]
        0 <= i < j < v.len() ==> !(v[i].name == v[j].name && v[i].backend == v[j].backend)
}

/// What is left without a package: what was there and is not that package, in the same
/// order.
proof fn deselected_facts(v: Seq<SelectedView>, name: Seq<char>, backend: i32)
    ensures
        !has_selected(deselected(v, name, backend), name, backend),
        forall|s: SelectedView| #[trigger]
            deselected(v, name, backend).contains(s) ==> v.contains(s),
        distinct(v) ==> distinct(deselected(v, name, backend)),
        !has_selected(v, name, backend) ==> deselected(v, name, backend) == v,
    decreases v.len(),
{
    if v.len() > 0 {
        let head = v.drop_last();
        deselected_facts(head, name, backend);
        assert(head.push(v.last()) =~= v);
        assert forall|s: SelectedView| head.contains(s) implies v.contains(s) by {
            let i = choose|i: int| 0 <= i < head.len() && head[i] == s;
            assert(v[i] == s);
        }
        assert(v.contains(v.last())) by {
            assert(v[v.len() - 1] == v.last());
        }
        if distinct(v) {
            assert forall|i: int, j: int|
                #![trigger head[i], head[j]]
                0 <= i < j < head.len() implies !(head[i].name == head[j].name && head[i].backend
                == head[j].backend) by {
                assert(head[i] == v[i] && head[j] == v[j]);
            }
            let d = deselected(v, name, backend);
            let dh = deselected(head, name, backend);
            if !(v.last().name == name && v.last().backend == backend) {
                assert forall|i: int, j: int|
                    #![trigger d[i], d[j]]
                    0 <= i < j < d.len() implies !(d[i].name == d[j].name && d[i].backend
                    == d[j].backend) by {
                    if j == d.len() - 1 {
                        assert(dh.contains(dh[i]));
                        let k = choose|k: int| 0 <= k < head.len() && head[k] == dh[i];
                        assert(v[k] == d[i] && v[v.len() - 1] == d[j]);
                    } else {
                        assert(dh[i] == d[i] && dh[j] == d[j]);
                    }
                }
            }
        }
        if has_selected(deselected(v, name, backend), name, backend) {
            let d = deselected(v, name, backend);
            let i = choose|i: int|
                0 <= i < d.len() && #[trigger] d[i].name == name && d[i].backend == backend;
            if i < deselected(head, name, backend).len() {
                assert(deselected(head, name, backend)[i] == d[i]);
            }
        }
        if !has_selected(v, name, backend) {
            if has_selected(head, name, backend) {
                let i = choose|i: int|
                    0 <= i < head.len() && #[trigger] head[i].name == name && head[i].backend
                        == backend;
                assert(v[i].name == name && v[i].backend == backend);
            }
            assert(!(v[v.len() - 1].name == name && v[v.len() - 1].backend == backend));
        }
    }
}

/// Marking and unmarking keep a selection free of repetitions; what was marked is in it,
/// what was unmarked is not; and unmarking a package that was not marked before gives the
/// old selection back.
pub proof fn toggling_is_sound(
    v: Seq<SelectedView>,
    name: Seq<char>,
    backend: i32,
    installed: bool,
)
    requires
        distinct(v),
    ensures
        distinct(toggled(v, name, backend, true, installed)),
        distinct(toggled(v, name, backend, false, installed)),
        has_selected(toggled(v, name, backend, true, installed), name, backend),
        !has_selected(toggled(v, name, backend, false, installed), name, backend),
        !has_selected(v, name, backend) ==> toggled(
            toggled(v, name, backend, true, installed),
            name,
            backend,
            false,
            installed,
        ) == v,
{
    deselected_facts(v, name, backend);
    let on = toggled(v, name, backend, true, installed);
    if !has_selected(v, name, backend) {
        let new = SelectedView { name, backend, installed };
        assert(on[v.len() as int] == new);
        assert(on.drop_last() =~= v);
        assert forall|i: int, j: int|
            #![trigger on[i], on[j]]
            0 <= i < j < on.len() implies !(on[i].name == on[j].name && on[i].backend
            == on[j].backend) by {
            if j == v.len() {
                assert(v[i] == on[i]);
            } else {
                assert(v[i] == on[i] && v[j] == on[j]);
            }
        }
    }
}

/// The marked packages are those that are installed and those that are not.
pub proof fn selection_is_parted(v: Seq<SelectedView>)
    ensures
        chosen(v, true).len() + chosen(v, false).len() == v.len(),
    decreases v.len(),
{
    if v.len() > 0 {
        selection_is_parted(v.drop_last());
    }
}

/// The counts that belong to a selection.
pub open spec fn with_selection(l: ListsView, v: Seq<SelectedView>) -> ListsView {
    ListsView {
        selected: v,
        selected_count: v.len() as i32,
        selected_installed_count: chosen(v, true).len() as i32,
        selected_uninstalled_count: (v.len() as i32).wrapping_sub(chosen(v, true).len() as i32),
        ..l
    }
}

/// The lists after the user has marked a package or taken its mark away.
pub open spec fn with_toggle(l: ListsView, name: Seq<char>, backend: i32, selected: bool) -> ListsView {
    let installed = shown_installed(l, name, backend);
    with_mark(
        with_selection(l, toggled(l.selected, name, backend, selected, installed)),
        name,
        backend,
        selected,
    )
}

/// The lists with the marks of a selection taken away.
pub open spec fn without_marks(l: ListsView, v: Seq<SelectedView>) -> ListsView
    decreases v.len(),
{
    if v.len() == 0 {
        l
    } else {
        with_mark(without_marks(l, v.drop_last()), v.last().name, v.last().backend, false)
    }
}

/// The lists with nothing counted as marked.
pub open spec fn uncounted(l: ListsView) -> ListsView {
    ListsView { selected_count: 0, ..l }
}

/// The lists after the user has taken all marks away.
pub open spec fn cleared(l: ListsView) -> ListsView {
    without_marks(
        ListsView {
            selected: Seq::empty(),
            selected_count: 0,
            selected_installed_count: 0,
            selected_uninstalled_count: 0,
            ..l
        },
        l.selected,
    )
}

impl Lists {
    /// Takes in the lists that were loaded.
    fn load(
        &mut self,
        installed: Vec<PackageData>,
        updates: Vec<PackageData>,
        flatpak: Vec<PackageData>,
        stats: StatsData,
    )
        ensures
            final(self)@ == with_loaded(
                old(self)@,
                ui::rows(installed@),
                ui::rows(updates@),
                ui::rows(flatpak@),
                stats@,
            ),
    {
        let ghost start = self@;
        if !self.detail_package.name.as_str().is_empty() {
            match find_row(
                &installed,
                self.detail_package.name.as_str(),
                self.detail_package.backend,
            ) {
                Some(i) => {
                    self.detail_package = installed[i].clone();
                    assert(ui::rows(installed@)[i as int] == installed@[i as int]@);
                },
                None => match find_row(
                    &flatpak,
                    self.detail_package.name.as_str(),
                    self.detail_package.backend,
                ) {
                    Some(i) => {
                        self.detail_package = flatpak[i].clone();
                        assert(ui::rows(flatpak@)[i as int] == flatpak@[i as int]@);
                    },
                    None => {
                        self.detail_package.installed = false;
                    },
                },
            }
        }
        assert(self@.detail_package == refreshed(
            start.detail_package,
            ui::rows(installed@),
            ui::rows(flatpak@),
        ));
        assert(ui::rows(installed@).len() == installed@.len());
        self.installed_packages = cut_page(&installed, 0);
        self.total_pages = count_pages(installed.len());
        self.current_page = 0;
        self.full_installed = installed;
        self.update_packages = updates;
        self.flatpak_packages = flatpak;
        self.stats = stats;
    }

    /// Takes in the results of a search.
    fn search(&mut self, results: Vec<PackageData>)
        ensures
            final(self)@ == with_results(old(self)@, ui::rows(results@)),
    {
        if !self.detail_package.name.as_str().is_empty() {
            match find_row(
                &results,
                self.detail_package.name.as_str(),
                self.detail_package.backend,
            ) {
                Some(i) => {
                    self.detail_package = results[i].clone();
                    assert(ui::rows(results@)[i as int] == results@[i as int]@);
                },
                None => {},
            }
        }
        self.search_installed = pick_installed(&results, true);
        self.search_available = pick_installed(&results, false);
    }

    /// Takes in a category.
    fn set_category(&mut self, packages: Vec<PackageData>)
        ensures
            final(self)@ == with_category(old(self)@, ui::rows(packages@)),
    {
        assert(ui::rows(packages@).len() == packages@.len());
        self.category_packages = cut_page(&packages, 0);
        self.total_pages = count_pages(packages.len());
        self.current_page = 0;
        self.full_category = packages;
    }

    /// Takes in a repository.
    fn set_repo(&mut self, packages: Vec<PackageData>)
        ensures
            final(self)@ == with_repo(old(self)@, ui::rows(packages@)),
    {
        assert(ui::rows(packages@).len() == packages@.len());
        self.repo_packages = cut_page(&packages, 0);
        self.total_pages = count_pages(packages.len());
        self.current_page = 0;
        self.full_repo = packages;
    }

    /// Shows another page of the list that a view shows.
    pub fn load_page(&mut self, view: i32, page: i32)
        requires
            page >= 0,
        ensures
            final(self)@ == with_page(old(self)@, view, page as nat),
    {
        if view == 0 {
            assert(ui::rows(self.full_installed@).len() == self.full_installed@.len());
            self.installed_packages = cut_page(&self.full_installed, page as u64);
            self.total_pages = count_pages(self.full_installed.len());
        } else if view == 7 {
            assert(ui::rows(self.full_category@).len() == self.full_category@.len());
            self.category_packages = cut_page(&self.full_category, page as u64);
            self.total_pages = count_pages(self.full_category.len());
        } else if view == 8 {
            assert(ui::rows(self.full_repo@).len() == self.full_repo@.len());
            self.repo_packages = cut_page(&self.full_repo, page as u64);
            self.total_pages = count_pages(self.full_repo.len());
        }
    }

    /// Marks the rows of a package, or takes their marks away.
    pub fn update_selection_in_models(&mut self, name: &str, backend: i32, selected: bool)
        ensures
            final(self)@ == with_mark(old(self)@, name@, backend, selected),
    {
        update_selection_in_model(&mut self.installed_packages, name, backend, selected);
        update_selection_in_model(&mut self.update_packages, name, backend, selected);
        update_selection_in_model(&mut self.search_installed, name, backend, selected);
        update_selection_in_model(&mut self.search_available, name, backend, selected);
        update_selection_in_model(&mut self.flatpak_packages, name, backend, selected);
        update_selection_in_model(&mut self.category_packages, name, backend, selected);
        update_selection_in_model(&mut self.repo_packages, name, backend, selected);
    }

    /// Whether a package is installed, as the first list that has it says.
    pub fn find_package_installed(&self, name: &str, backend: i32) -> (r: bool)
        ensures
            r == shown_installed(self@, name@, backend),
    {
        if let Some(i) = find_row(&self.installed_packages, name, backend) {
            return self.installed_packages[i].installed;
        }
        if let Some(i) = find_row(&self.update_packages, name, backend) {
            return self.update_packages[i].installed;
        }
        if let Some(i) = find_row(&self.search_installed, name, backend) {
            return self.search_installed[i].installed;
        }
        if let Some(i) = find_row(&self.search_available, name, backend) {
            return self.search_available[i].installed;
        }
        if let Some(i) = find_row(&self.flatpak_packages, name, backend) {
            return self.flatpak_packages[i].installed;
        }
        if let Some(i) = find_row(&self.category_packages, name, backend) {
            return self.category_packages[i].installed;
        }
        if let Some(i) = find_row(&self.repo_packages, name, backend) {
            return self.repo_packages[i].installed;
        }
        false
    }

    /// Takes over a selection and its counts.
    fn set_selection(&mut self, v: Vec<Selected>)
        ensures
            final(self)@ == with_selection(old(self)@, selections(v@)),
    {
        let ghost all = selections(v@);
        let mut installed: usize = 0;
        let mut i: usize = 0;
        assert(all.take(0) =~= Seq::empty());
        while i < v.len()
            invariant
                i <= v@.len(),
                installed <= i,
                all == selections(v@),
                installed == chosen(all.take(i as int), true).len(),
            decreases v@.len() - i,
        {
            assert(all.take(i + 1).drop_last() =~= all.take(i as int));
            assert(all.take(i + 1).last() == v@[i as int]@);
            if v[i].installed {
                installed += 1;
            }
            i += 1;
        }
        assert(all.take(all.len() as int) =~= all);
        assert(all.len() == v@.len());
        self.selected_count = v.len() as i32;
        self.selected_installed_count = installed as i32;
        self.selected_uninstalled_count = (v.len() as i32).wrapping_sub(installed as i32);
        self.selected = v;
    }

    /// The user marks a package, or takes its mark away.
    pub fn toggle_package_selected(&mut self, name: &str, backend: i32, selected: bool)
        ensures
            final(self)@ == with_toggle(old(self)@, name@, backend, selected),
    {
        let ghost start = self@;
        let installed = self.find_package_installed(name, backend);
        let mut old_selection: Vec<Selected> = Vec::new();
        std::mem::swap(&mut old_selection, &mut self.selected);
        let v = toggle(old_selection, name, backend, selected, installed);
        self.set_selection(v);
        assert(self@ == with_selection(
            start,
            toggled(start.selected, name@, backend, selected, installed),
        ));
        self.update_selection_in_models(name, backend, selected);
    }

    /// The user takes all marks away.
    pub fn clear_selection(&mut self)
        ensures
            final(self)@ == cleared(old(self)@),
    {
        let mut marked: Vec<Selected> = Vec::new();
        std::mem::swap(&mut marked, &mut self.selected);
        assert(selections(self.selected@) =~= Seq::empty());
        self.selected_count = 0;
        self.selected_installed_count = 0;
        self.selected_uninstalled_count = 0;
        let ghost start = self@;
        let ghost all = selections(marked@);
        let mut i: usize = 0;
        assert(all.take(0) =~= Seq::empty());
        while i < marked.len()
            invariant
                i <= marked@.len(),
                all == selections(marked@),
                self@ == without_marks(start, all.take(i as int)),
            decreases marked@.len() - i,
        {
            assert(all.take(i + 1).drop_last() =~= all.take(i as int));
            assert(all.take(i + 1).last() == marked@[i as int]@);
            self.update_selection_in_models(marked[i].name.as_str(), marked[i].backend, false);
            i += 1;
        }
        assert(all.take(all.len() as int) =~= all);
    }

    /// Counts nothing as marked.
    fn uncount(&mut self)
        ensures
            final(self)@ == uncounted(old(self)@),
    {
        self.selected_count = 0;
    }

    /// Installs what is marked and not installed, where there is any.
    pub fn bulk_install(&self) -> (r: Option<Job>)
        ensures
            is_bulk_job(r, chosen(self@.selected, false), "Installing "@, "install"@),
    {
        bulk(&self.selected, false, "Installing ", "install")
    }

    /// Removes what is marked and installed, where there is any.
    pub fn bulk_remove(&self) -> (r: Option<Job>)
        ensures
            is_bulk_job(r, chosen(self@.selected, true), "Removing "@, "remove"@),
    {
        bulk(&self.selected, true, "Removing ", "remove")
    }
}

/// A selection after a package was marked or its mark taken away.
fn toggle(
    v: Vec<Selected>,
    name: &str,
    backend: i32,
    selected: bool,
    installed: bool,
) -> (r: Vec<Selected>)
    ensures
        selections(r@) == toggled(selections(v@), name@, backend, selected, installed),
{
    let ghost all = selections(v@);
    let mut r: Vec<Selected> = Vec::new();
    let mut known = false;
    let mut i: usize = 0;
    assert(all.take(0) =~= Seq::empty());
    assert(selections(r@) =~= deselected(all.take(0), name@, backend));
    while i < v.len()
        invariant
            i <= v@.len(),
            all == selections(v@),
            known == has_selected(all.take(i as int), name@, backend),
            selected ==> selections(r@) == all.take(i as int),
            !selected ==> selections(r@) == deselected(all.take(i as int), name@, backend),
        decreases v@.len() - i,
    {
        let ghost before = selections(r@);
        let ghost head = all.take(i as int);
        let ghost next = all.take(i + 1);
        assert(next.drop_last() =~= head);
        assert(next =~= head.push(v@[i as int]@));
        let same = text::equals(v[i].name.as_str(), name) && v[i].backend == backend;
        proof {
            if known {
                let k = choose|k: int|
                    0 <= k < head.len() && #[trigger] head[k].name == name@ && head[k].backend
                        == backend;
                assert(next[k].name == name@ && next[k].backend == backend);
            }
            if same {
                assert(next[i as int].name == name@ && next[i as int].backend == backend);
            }
            if has_selected(next, name@, backend) && !same {
                let k = choose|k: int|
                    0 <= k < next.len() && #[trigger] next[k].name == name@ && next[k].backend
                        == backend;
                assert(head[k].name == name@ && head[k].backend == backend);
            }
        }
        if same {
            known = true;
        }
        if selected || !same {
            let kept = Selected {
                name: v[i].name.clone(),
                backend: v[i].backend,
                installed: v[i].installed,
            };
            r.push(kept);
            assert(kept@ =~= v@[i as int]@);
            assert(selections(r@) =~= before.push(v@[i as int]@));
        }
        i += 1;
    }
    assert(all.take(all.len() as int) =~= all);
    if selected && !known {
        let new = Selected { name: name.to_owned(), backend, installed };
        r.push(new);
        assert(selections(r@) =~= all.push(new@));
    }
    r
}

/// The names of a selection.
pub open spec fn selected_names(v: Seq<SelectedView>) -> Seq<Seq<char>> {
    v.map_values(|s: SelectedView| s.name)
}

/// Whether `r` is the job that does something to all of `v`, on the backend of the first,
/// and whether there is none where `v` is empty.
pub open spec fn is_bulk_job(
    r: Option<Job>,
    v: Seq<SelectedView>,
    doing: Seq<char>,
    action: Seq<char>,
) -> bool {
    match r {
        Some(j) => v.len() > 0 && j@ == jobs::job(
            doing + text::decimal(v.len()) + " packages"@,
            action,
            selected_names(v),
            v[0].backend,
        ),
        None => v.len() == 0,
    }
}

/// The job that does something to the part of a selection that is installed, or that is
/// not.
fn bulk(v: &Vec<Selected>, installed: bool, doing: &str, action: &str) -> (r: Option<Job>)
    ensures
        is_bulk_job(r, chosen(selections(v@), installed), doing@, action@),
{
    let ghost all = selections(v@);
    let mut names: Vec<String> = Vec::new();
    let mut backend: i32 = 0;
    let mut i: usize = 0;
    assert(all.take(0) =~= Seq::empty());
    assert(text::strings(names@) =~= selected_names(chosen(all.take(0), installed)));
    while i < v.len()
        invariant
            i <= v@.len(),
            all == selections(v@),
            text::strings(names@) == selected_names(chosen(all.take(i as int), installed)),
            chosen(all.take(i as int), installed).len() > 0 ==> backend == chosen(
                all.take(i as int),
                installed,
            )[0].backend,
        decreases v@.len() - i,
    {
        let ghost before = chosen(all.take(i as int), installed);
        assert(all.take(i + 1).drop_last() =~= all.take(i as int));
        assert(all.take(i + 1).last() == v@[i as int]@);
        assert(text::strings(names@).len() == names@.len());
        if v[i].installed == installed {
            if names.len() == 0 {
                backend = v[i].backend;
            }
            let ghost shown = text::strings(names@);
            names.push(v[i].name.clone());
            assert(text::strings(names@) =~= shown.push(v@[i as int].name@));
            assert(selected_names(before.push(v@[i as int]@)) =~= selected_names(before).push(
                v@[i as int].name@,
            ));
        }
        i += 1;
    }
    assert(all.take(all.len() as int) =~= all);
    assert(text::strings(names@).len() == names@.len());
    if names.len() == 0 {
        return None;
    }
    let count = text::decimal_of(names.len() as u64);
    let count = text::text_of(count.as_slice());
    let title = doing.to_owned().concat(count.as_str()).concat(" packages");
    Some(jobs::managed(title, action, &names, backend))
}

/// A row that marking leaves alone but for its mark.
pub proof fn marking_only_marks(
    v: Seq<PackageDataView>,
    name: Seq<char>,
    backend: i32,
    selected: bool,
)
    ensures
        mark(v, name, backend, selected).len() == v.len(),
        forall|i: int|
            0 <= i < v.len() ==> #[trigger] mark(v, name, backend, selected)[i] == (
            PackageDataView { selected: mark(v, name, backend, selected)[i].selected, ..v[i] }),
        mark(mark(v, name, backend, selected), name, backend, selected) == mark(
            v,
            name,
            backend,
            selected,
        ),
{
    place_is_first(v, name, backend, 0);
    let m = mark(v, name, backend, selected);
    place_is_first(m, name, backend, 0);
    match place(v, name, backend) {
        Some(i) => {
            assert(is_of(m[i], name, backend));
            match place(m, name, backend) {
                Some(j) => {
                    if j < i {
                        assert(!is_of(v[j], name, backend));
                        assert(m[j] == v[j]);
                    }
                    assert(mark(m, name, backend, selected) =~= m);
                },
                None => {},
            }
        },
        None => {},
    }
}

/// Taking a mark away that was just set gives the rows back as they were, where the row
/// was not marked before.
pub proof fn marking_can_be_undone(v: Seq<PackageDataView>, name: Seq<char>, backend: i32)
    requires
        place(v, name, backend) matches Some(i) ==> !v[i].selected,
    ensures
        mark(mark(v, name, backend, true), name, backend, false) == v,
{
    place_is_first(v, name, backend, 0);
    let m = mark(v, name, backend, true);
    place_is_first(m, name, backend, 0);
    match place(v, name, backend) {
        Some(i) => {
            assert(is_of(m[i], name, backend));
            match place(m, name, backend) {
                Some(j) => {
                    if j < i {
                        assert(!is_of(v[j], name, backend));
                        assert(m[j] == v[j]);
                    }
                    assert(mark(m, name, backend, false) =~= v);
                },
                None => {},
            }
        },
        None => {},
    }
}

/// The terminal with more output that waits: of more than 65536 bytes the last 32768 stay.
pub open spec fn with_output(t: TerminalView, more: Seq<char>) -> TerminalView {
    let all = t.pending + more;
    TerminalView {
        pending: if encode_utf8(all).len() > 65536 {
            text::last_bytes(all, 32768).unwrap()
        } else {
            all
        },
        ..t
    }
}

/// More output can wait: where it has to be cut, the cut falls between two characters.
pub open spec fn can_wait(t: TerminalView, more: Seq<char>) -> bool {
    encode_utf8(t.pending + more).len() > 65536 ==> text::last_bytes(t.pending + more, 32768) is Some
}

/// What the terminal shows once the waiting output is in it, before it is cut.
pub open spec fn combined(t: TerminalView) -> Seq<char> {
    terminal::terminal_text(t.output, text::replace(t.pending, seq!['\r', '\n'], seq!['\n']))
}

/// The terminal with the waiting output in it: of more than 16384 bytes the last 16384
/// stay.
pub open spec fn flushed(t: TerminalView) -> TerminalView {
    let all = combined(t);
    TerminalView {
        pending: Seq::empty(),
        output: if encode_utf8(all).len() > 16384 {
            text::last_bytes(all, 16384).unwrap()
        } else {
            all
        },
        ..t
    }
}

/// The waiting output can be shown: where the text has to be cut, the cut falls between
/// two characters.
pub open spec fn can_flush(t: TerminalView) -> bool {
    encode_utf8(combined(t)).len() > 16384 ==> text::last_bytes(combined(t), 16384) is Some
}

impl Terminal {
    /// Whether more output can wait.
    pub fn accepts(&self, more: &str) -> (r: bool)
        ensures
            r == can_wait(self@, more@),
    {
        let mut all = text::copy(self.pending.as_slice());
        let more = text::chars_of(more);
        text::extend(&mut all, more.as_slice());
        text::byte_len(all.as_slice()) <= 65536 || text::ending(all.as_slice(), 32768).is_some()
    }

    /// Puts more output behind what waits.
    fn receive(&mut self, more: &str)
        requires
            can_wait(old(self)@, more@),
        ensures
            final(self)@ == with_output(old(self)@, more@),
    {
        let more = text::chars_of(more);
        text::extend(&mut self.pending, more.as_slice());
        if text::byte_len(self.pending.as_slice()) > 65536 {
            self.pending = text::ending(self.pending.as_slice(), 32768).unwrap();
        }
    }

    /// The text once the waiting output is in it, before it is cut.
    fn combine(&self) -> (r: Vec<char>)
        ensures
            r@ == combined(self@),
    {
        let ending: Vec<char> = vec!['\r', '\n'];
        let feed: Vec<char> = vec!['\n'];
        assert(ending@ =~= seq!['\r', '\n'] && feed@ =~= seq!['\n']);
        let t = text::replaced(self.pending.as_slice(), ending.as_slice(), feed.as_slice());
        let t = text::text_of(t.as_slice());
        let r = terminal::apply_terminal_text(self.output.as_str(), t.as_str());
        text::chars_of(r.as_str())
    }

    /// Whether the waiting output can be shown.
    pub fn is_flushable(&self) -> (r: bool)
        ensures
            r == can_flush(self@),
    {
        let all = self.combine();
        text::byte_len(all.as_slice()) <= 16384 || text::ending(all.as_slice(), 16384).is_some()
    }

    /// Opens the terminal for a command, with some output that waits.
    fn start(&mut self, title: String, pending: Vec<char>)
        ensures
            final(self)@ == started(title@, pending@),
    {
        self.shown = true;
        self.title = title;
        self.output = String::new();
        self.done = false;
        self.success = false;
        self.pending = pending;
    }

    /// Closes the terminal.
    fn leave(&mut self)
        ensures
            final(self)@ == (TerminalView { shown: false, ..old(self)@ }),
    {
        self.shown = false;
    }

    /// The command has ended.
    fn end(&mut self, success: bool)
        ensures
            final(self)@ == (TerminalView { done: true, success, ..old(self)@ }),
    {
        self.done = true;
        self.success = success;
    }

    /// Whether the waiting output is due: there is some, and it is either asked for or 150
    /// milliseconds have gone by since the last time.
    pub fn is_due(&self, asked: bool, waited: u64) -> (r: bool)
        ensures
            r == (self@.pending.len() > 0 && (asked || waited >= 150)),
    {
        self.pending.len() > 0 && (asked || waited >= 150)
    }

    /// Shows the waiting output.
    pub fn flush(&mut self)
        requires
            can_flush(old(self)@),
        ensures
            final(self)@ == flushed(old(self)@),
    {
        let all = self.combine();
        let shown = if text::byte_len(all.as_slice()) > 16384 {
            text::ending(all.as_slice(), 16384).unwrap()
        } else {
            all
        };
        self.output = text::text_of(shown.as_slice());
        self.pending = Vec::new();
    }
}

/// What to load anew.
#[derive(Debug)]
pub struct Refresh {
    /// The search to repeat.
    pub search: Option<String>,
    /// The repository to load again.
    pub repo: Option<String>,
}

/// What a `Refresh` asks for.
#[verifier::ext_equal]
pub struct RefreshView {
    pub search: Option<Seq<char>>,
    pub repo: Option<Seq<char>>,
}

impl View for Refresh {
    type V = RefreshView;

    open spec fn view(&self) -> RefreshView {
        RefreshView {
            search: package::opt_text(self.search),
            repo: package::opt_text(self.repo),
        }
    }
}

/// What a message asks for besides what it changes.
#[derive(Debug)]
pub struct Effect {
    /// Show the terminal's output at once.
    pub flush: bool,
    /// Load the packages anew, and what is named.
    pub refresh: Option<Refresh>,
    /// Close the popup after a while.
    pub auto_close: bool,
}

/// What an `Effect` asks for.
#[verifier::ext_equal]
pub struct EffectView {
    pub flush: bool,
    pub refresh: Option<RefreshView>,
    pub auto_close: bool,
}

impl View for Effect {
    type V = EffectView;

    open spec fn view(&self) -> EffectView {
        EffectView {
            flush: self.flush,
            refresh: match self.refresh {
                Some(r) => Some(r@),
                None => None,
            },
            auto_close: self.auto_close,
        }
    }
}

/// What is loaded anew after an operation: the search, where there is one, and the
/// repository, where it is open.
pub open spec fn refresh(w: WindowView) -> RefreshView {
    RefreshView {
        search: if w.search_text.len() > 0 {
            Some(w.search_text)
        } else {
            None
        },
        repo: if w.view == 8 && w.repo_name.len() > 0 {
            Some(w.repo_name)
        } else {
            None
        },
    }
}

/// What a message asks for besides what it changes.
pub open spec fn effect(w: WindowView, m: UiMessageView) -> EffectView {
    EffectView {
        flush: m is TerminalDone || m is ShowTerminalFallback,
        refresh: if m is OperationDone || m == UiMessageView::TerminalDone(true) {
            Some(refresh(w))
        } else {
            None
        },
        auto_close: m == UiMessageView::OperationDone(true),
    }
}

/// The popup at the start of an operation.
pub open spec fn opened(title: Seq<char>) -> PopupView {
    PopupView {
        shown: true,
        logs: false,
        title,
        percent: 0,
        stage: "Starting..."@,
        output: Seq::empty(),
        show_input: false,
        prompt: Seq::empty(),
        done: false,
        success: false,
    }
}

/// The terminal at the start of a command, with this output.
pub open spec fn started(title: Seq<char>, pending: Seq<char>) -> TerminalView {
    TerminalView {
        shown: true,
        title,
        output: Seq::empty(),
        done: false,
        success: false,
        pending,
    }
}

/// The window after a message.
pub open spec fn handled(w: WindowView, m: UiMessageView) -> WindowView {
    match m {
        UiMessageView::PackagesLoaded { installed, updates, flatpak, firmware, stats } => WindowView {
            lists: with_loaded(w.lists, installed, updates, flatpak, stats),
            status: StatusView { loading: false, ..w.status },
            ..w
        },
        UiMessageView::SearchResults(v) => WindowView {
            lists: with_results(w.lists, v),
            status: StatusView { loading: false, ..w.status },
            ..w
        },
        UiMessageView::CategoryPackages(v) => WindowView {
            lists: with_category(w.lists, v),
            status: StatusView { loading: false, ..w.status },
            ..w
        },
        UiMessageView::RepoPackages(v) => WindowView {
            lists: with_repo(w.lists, v),
            status: StatusView { loading: false, ..w.status },
            ..w
        },
        UiMessageView::SetLoading(b) => WindowView {
            status: StatusView { loading: b, ..w.status },
            ..w
        },
        UiMessageView::SetBusy(b) => WindowView { status: StatusView { busy: b, ..w.status }, ..w },
        UiMessageView::SetStatus(s) => WindowView {
            status: StatusView { message: s, ..w.status },
            ..w
        },
        UiMessageView::SetProgress(n) => WindowView {
            status: StatusView { progress: n, ..w.status },
            ..w
        },
        UiMessageView::SetProgressText(s) => WindowView {
            status: StatusView { progress_text: s, ..w.status },
            ..w
        },
        UiMessageView::ShowTerminal(title) => WindowView {
            terminal: started(title, Seq::empty()),
            ..w
        },
        UiMessageView::TerminalOutput(s) => WindowView {
            terminal: with_output(w.terminal, s),
            ..w
        },
        UiMessageView::TerminalDone(success) => WindowView {
            terminal: TerminalView { done: true, success, ..w.terminal },
            ..w
        },
        UiMessageView::HideTerminal => WindowView {
            terminal: TerminalView { shown: false, ..w.terminal },
            popup: PopupView { shown: false, ..w.popup },
            ..w
        },
        UiMessageView::ShowProgressPopup(title) => WindowView {
            popup: opened(title),
            terminal: TerminalView { shown: false, ..w.terminal },
            ..w
        },
        UiMessageView::ProgressOutput(s) => WindowView {
            popup: PopupView { output: s, ..w.popup },
            ..w
        },
        UiMessageView::ProgressPrompt(s) => WindowView {
            popup: PopupView { prompt: s, show_input: true, ..w.popup },
            ..w
        },
        UiMessageView::ProgressHidePrompt => WindowView { popup: unasked(w.popup), ..w },
        UiMessageView::OperationProgress(percent, stage) => WindowView {
            popup: PopupView { percent, stage, ..w.popup },
            ..w
        },
        UiMessageView::OperationDone(success) => WindowView {
            popup: ended(w.popup, success),
            lists: if success {
                uncounted(w.lists)
            } else {
                w.lists
            },
            ..w
        },
        UiMessageView::ShowTerminalFallback(s) => WindowView {
            popup: PopupView { shown: false, ..w.popup },
            terminal: started(w.popup.title, s),
            ..w
        },
    }
}

/// The part of the window that a message is about.
pub enum Area {
    Packages,
    Status,
    Terminal,
    Popup,
}

/// The part of the window that a message is about.
pub open spec fn area(m: UiMessageView) -> Area {
    match m {
        UiMessageView::PackagesLoaded { .. } => Area::Packages,
        UiMessageView::SearchResults(_) => Area::Packages,
        UiMessageView::CategoryPackages(_) => Area::Packages,
        UiMessageView::RepoPackages(_) => Area::Packages,
        UiMessageView::SetLoading(_) => Area::Status,
        UiMessageView::SetBusy(_) => Area::Status,
        UiMessageView::SetStatus(_) => Area::Status,
        UiMessageView::SetProgress(_) => Area::Status,
        UiMessageView::SetProgressText(_) => Area::Status,
        UiMessageView::ShowTerminal(_) => Area::Terminal,
        UiMessageView::TerminalOutput(_) => Area::Terminal,
        UiMessageView::TerminalDone(_) => Area::Terminal,
        UiMessageView::HideTerminal => Area::Terminal,
        UiMessageView::ShowTerminalFallback(_) => Area::Terminal,
        UiMessageView::ShowProgressPopup(_) => Area::Popup,
        UiMessageView::ProgressOutput(_) => Area::Popup,
        UiMessageView::ProgressPrompt(_) => Area::Popup,
        UiMessageView::ProgressHidePrompt => Area::Popup,
        UiMessageView::OperationProgress(_, _) => Area::Popup,
        UiMessageView::OperationDone(_) => Area::Popup,
    }
}

/// The part of the window that a message is about.
fn area_of(m: &UiMessage) -> (r: Area)
    ensures
        r == area(m@),
{
    match m {
        UiMessage::PackagesLoaded { .. } => Area::Packages,
        UiMessage::SearchResults(_) => Area::Packages,
        UiMessage::CategoryPackages(_) => Area::Packages,
        UiMessage::RepoPackages(_) => Area::Packages,
        UiMessage::SetLoading(_) => Area::Status,
        UiMessage::SetBusy(_) => Area::Status,
        UiMessage::SetStatus(_) => Area::Status,
        UiMessage::SetProgress(_) => Area::Status,
        UiMessage::SetProgressText(_) => Area::Status,
        UiMessage::ShowTerminal(_) => Area::Terminal,
        UiMessage::TerminalOutput(_) => Area::Terminal,
        UiMessage::TerminalDone(_) => Area::Terminal,
        UiMessage::HideTerminal => Area::Terminal,
        UiMessage::ShowTerminalFallback(_) => Area::Terminal,
        UiMessage::ShowProgressPopup(_) => Area::Popup,
        UiMessage::ProgressOutput(_) => Area::Popup,
        UiMessage::ProgressPrompt(_) => Area::Popup,
        UiMessage::ProgressHidePrompt => Area::Popup,
        UiMessage::OperationProgress(_, _) => Area::Popup,
        UiMessage::OperationDone(_) => Area::Popup,
    }
}

/// The popup when the operation has ended. One that failed shows its log.
pub open spec fn ended(p: PopupView, success: bool) -> PopupView {
    PopupView {
        percent: 100,
        done: true,
        success,
        logs: if success {
            p.logs
        } else {
            true
        },
        ..unasked(p)
    }
}

/// The popup when it asks nothing any more.
pub open spec fn unasked(p: PopupView) -> PopupView {
    PopupView { show_input: false, prompt: Seq::empty(), ..p }
}

impl Status {
    /// Loading has begun or ended.
    fn set_loading(&mut self, loading: bool)
        ensures
            final(self)@ == (StatusView { loading, ..old(self)@ }),
    {
        self.loading = loading;
    }

    /// Work has begun or ended.
    fn set_busy(&mut self, busy: bool)
        ensures
            final(self)@ == (StatusView { busy, ..old(self)@ }),
    {
        self.busy = busy;
    }

    /// Sets the status line.
    fn set_message(&mut self, message: String)
        ensures
            final(self)@ == (StatusView { message: message@, ..old(self)@ }),
    {
        self.message = message;
    }

    /// Sets the progress bar's value.
    fn set_progress(&mut self, progress: i32)
        ensures
            final(self)@ == (StatusView { progress, ..old(self)@ }),
    {
        self.progress = progress;
    }

    /// Sets the progress bar's text.
    fn set_progress_text(&mut self, progress_text: String)
        ensures
            final(self)@ == (StatusView { progress_text: progress_text@, ..old(self)@ }),
    {
        self.progress_text = progress_text;
    }
}

impl Popup {
    /// Opens the popup for an operation.
    fn start(&mut self, title: String)
        ensures
            final(self)@ == opened(title@),
    {
        self.shown = true;
        self.logs = false;
        self.title = title;
        self.percent = 0;
        self.stage = "Starting...".to_owned();
        self.output = String::new();
        self.show_input = false;
        self.prompt = String::new();
        self.done = false;
        self.success = false;
    }

    /// Shows the log.
    fn set_output(&mut self, output: String)
        ensures
            final(self)@ == (PopupView { output: output@, ..old(self)@ }),
    {
        self.output = output;
    }

    /// Asks something.
    fn ask(&mut self, prompt: String)
        ensures
            final(self)@ == (PopupView { prompt: prompt@, show_input: true, ..old(self)@ }),
    {
        self.prompt = prompt;
        self.show_input = true;
    }

    /// Shows how far the operation is.
    fn advance(&mut self, percent: i32, stage: String)
        ensures
            final(self)@ == (PopupView { percent, stage: stage@, ..old(self)@ }),
    {
        self.percent = percent;
        self.stage = stage;
    }

    /// The operation has ended.
    fn end(&mut self, success: bool)
        ensures
            final(self)@ == ended(old(self)@, success),
    {
        self.hide_prompt();
        self.percent = 100;
        self.done = true;
        self.success = success;
        if !success {
            self.logs = true;
        }
    }

    /// The popup asks nothing any more.
    pub fn hide_prompt(&mut self)
        ensures
            final(self)@ == unasked(old(self)@),
    {
        self.show_input = false;
        self.prompt = String::new();
    }

    /// The user closes the popup, or it closes after a successful operation, whose log is
    /// closed too.
    pub fn close(&mut self, logs_too: bool)
        ensures
            final(self)@ == (PopupView {
                shown: false,
                logs: old(self)@.logs && !logs_too,
                ..old(self)@
            }),
    {
        self.shown = false;
        if logs_too {
            self.logs = false;
        }
    }
}

impl Window {
    /// An empty window.
    pub fn new() -> (r: Window)
        ensures
            r@ == blank(),
    {
        let r = Window {
            view: 0,
            search_text: String::new(),
            repo_name: String::new(),
            lists: Lists {
                installed_packages: Vec::new(),
                update_packages: Vec::new(),
                search_installed: Vec::new(),
                search_available: Vec::new(),
                flatpak_packages: Vec::new(),
                category_packages: Vec::new(),
                repo_packages: Vec::new(),
                full_installed: Vec::new(),
                full_category: Vec::new(),
                full_repo: Vec::new(),
                detail_package: PackageData::plain(
                    String::new(),
                    String::new(),
                    String::new(),
                    String::new(),
                    String::new(),
                    0,
                    false,
                    false,
                ),
                stats: StatsData {
                    pacman_count: 0,
                    flatpak_count: 0,
                    orphan_count: 0,
                    update_count: 0,
                    cache_size: String::new(),
                },
                current_page: 0,
                total_pages: 0,
                selected: Vec::new(),
                selected_count: 0,
                selected_installed_count: 0,
                selected_uninstalled_count: 0,
            },
            status: Status {
                loading: false,
                busy: false,
                message: String::new(),
                progress: 0,
                progress_text: String::new(),
            },
            terminal: Terminal {
                shown: false,
                title: String::new(),
                output: String::new(),
                done: false,
                success: false,
                pending: Vec::new(),
            },
            popup: Popup {
                shown: false,
                logs: false,
                title: String::new(),
                percent: 0,
                stage: String::new(),
                output: String::new(),
                show_input: false,
                prompt: String::new(),
                done: false,
                success: false,
            },
            local: LocalInstall {
                shown: false,
                package: PackageData::plain(
                    String::new(),
                    String::new(),
                    String::new(),
                    String::new(),
                    String::new(),
                    0,
                    false,
                    false,
                ),
                path: String::new(),
            },
        };
        assert(r@.lists.selected =~= Seq::empty());
        assert(r@.lists =~~= blank().lists);
        assert(r@.local =~= blank().local);
        r
    }

    /// Asks whether to install the package in a file, where it is one.
    pub fn open_local(&mut self, path: &str, info: Option<PackageData>)
        ensures
            final(self)@ == (match info {
                Some(p) => WindowView {
                    local: LocalInstallView { shown: true, package: p@, path: path@ },
                    view: 4,
                    ..old(self)@
                },
                None => old(self)@,
            }),
    {
        match info {
            Some(p) => {
                self.local = LocalInstall { shown: true, package: p, path: path.to_owned() };
                self.view = 4;
            },
            None => {},
        }
    }

    /// The user installs the package in a file, or does not and goes back to the installed
    /// packages.
    pub fn close_local(&mut self, cancelled: bool)
        ensures
            final(self)@ == (WindowView {
                local: LocalInstallView { shown: false, ..old(self)@.local },
                view: if cancelled {
                    0
                } else {
                    old(self)@.view
                },
                ..old(self)@
            }),
    {
        self.local.shown = false;
        if cancelled {
            self.view = 0;
        }
    }

    /// What is loaded anew after an operation.
    fn plan_refresh(&self) -> (r: Refresh)
        ensures
            r@ == refresh(self@),
    {
        Refresh {
            search: if self.search_text.as_str().is_empty() {
                None
            } else {
                Some(self.search_text.clone())
            },
            repo: if self.view == 8 && !self.repo_name.as_str().is_empty() {
                Some(self.repo_name.clone())
            } else {
                None
            },
        }
    }

    /// Whether a message can be taken in.
    pub fn accepts(&self, m: &UiMessage) -> (r: bool)
        ensures
            r == (m@ matches UiMessageView::TerminalOutput(s) ==> can_wait(self@.terminal, s)),
    {
        match m {
            UiMessage::TerminalOutput(s) => self.terminal.accepts(s.as_str()),
            _ => true,
        }
    }

    /// Takes in a message on the lists of packages.
    fn show_packages(&mut self, m: UiMessage)
        requires
            area(m@) == Area::Packages,
        ensures
            final(self)@ == handled(old(self)@, m@),
    {
        match m {
            UiMessage::PackagesLoaded { installed, updates, flatpak, firmware, stats } => {
                self.lists.load(installed, updates, flatpak, stats);
            },
            UiMessage::SearchResults(v) => self.lists.search(v),
            UiMessage::CategoryPackages(v) => self.lists.set_category(v),
            UiMessage::RepoPackages(v) => self.lists.set_repo(v),
            _ => {},
        }
        self.status.set_loading(false);
    }

    /// Takes in a message on what is going on.
    fn show_status(&mut self, m: UiMessage)
        requires
            area(m@) == Area::Status,
        ensures
            final(self)@ == handled(old(self)@, m@),
    {
        match m {
            UiMessage::SetLoading(b) => self.status.set_loading(b),
            UiMessage::SetBusy(b) => self.status.set_busy(b),
            UiMessage::SetStatus(s) => self.status.set_message(s),
            UiMessage::SetProgress(n) => self.status.set_progress(n),
            UiMessage::SetProgressText(s) => self.status.set_progress_text(s),
            _ => {},
        }
    }

    /// Takes in a message on the terminal.
    fn show_terminal(&mut self, m: UiMessage)
        requires
            area(m@) == Area::Terminal,
            m@ matches UiMessageView::TerminalOutput(s) ==> can_wait(old(self)@.terminal, s),
        ensures
            final(self)@ == handled(old(self)@, m@),
    {
        match m {
            UiMessage::ShowTerminal(title) => self.terminal.start(title, Vec::new()),
            UiMessage::TerminalOutput(s) => self.terminal.receive(s.as_str()),
            UiMessage::TerminalDone(success) => self.terminal.end(success),
            UiMessage::HideTerminal => {
                self.terminal.leave();
                self.popup.close(false);
            },
            UiMessage::ShowTerminalFallback(s) => {
                self.terminal.start(self.popup.title.clone(), text::chars_of(s.as_str()));
                self.popup.close(false);
            },
            _ => {},
        }
    }

    /// Takes in a message on the popup.
    fn show_popup(&mut self, m: UiMessage)
        requires
            area(m@) == Area::Popup,
        ensures
            final(self)@ == handled(old(self)@, m@),
    {
        match m {
            UiMessage::ShowProgressPopup(title) => {
                self.popup.start(title);
                self.terminal.leave();
            },
            UiMessage::ProgressOutput(s) => self.popup.set_output(s),
            UiMessage::ProgressPrompt(s) => self.popup.ask(s),
            UiMessage::ProgressHidePrompt => self.popup.hide_prompt(),
            UiMessage::OperationProgress(percent, stage) => self.popup.advance(percent, stage),
            UiMessage::OperationDone(success) => {
                self.popup.end(success);
                if success {
                    self.lists.uncount();
                }
            },
            _ => {},
        }
    }

    /// What the program does after a message.
    fn plan_effect(&self, m: &UiMessage) -> (r: Effect)
        ensures
            r@ == effect(self@, m@),
    {
        match m {
            UiMessage::TerminalDone(success) => Effect {
                flush: true,
                refresh: if *success {
                    Some(self.plan_refresh())
                } else {
                    None
                },
                auto_close: false,
            },
            UiMessage::OperationDone(success) => Effect {
                flush: false,
                refresh: Some(self.plan_refresh()),
                auto_close: *success,
            },
            UiMessage::ShowTerminalFallback(_) => Effect {
                flush: true,
                refresh: None,
                auto_close: false,
            },
            _ => Effect { flush: false, refresh: None, auto_close: false },
        }
    }

    /// Takes in a message.
    pub fn handle(&mut self, m: UiMessage) -> (r: Effect)
        requires
            m@ matches UiMessageView::TerminalOutput(s) ==> can_wait(old(self)@.terminal, s),
        ensures
            final(self)@ == handled(old(self)@, m@),
            r@ == effect(old(self)@, m@),
    {
        let r = self.plan_effect(&m);
        match area_of(&m) {
            Area::Packages => self.show_packages(m),
            Area::Status => self.show_status(m),
            Area::Terminal => self.show_terminal(m),
            Area::Popup => self.show_popup(m),
        }
        r
    }
}

/// An empty window.
pub open spec fn blank() -> WindowView {
    WindowView {
        view: 0,
        search_text: Seq::empty(),
        repo_name: Seq::empty(),
        lists: ListsView {
            installed_packages: Seq::empty(),
            update_packages: Seq::empty(),
            search_installed: Seq::empty(),
            search_available: Seq::empty(),
            flatpak_packages: Seq::empty(),
            category_packages: Seq::empty(),
            repo_packages: Seq::empty(),
            full_installed: Seq::empty(),
            full_category: Seq::empty(),
            full_repo: Seq::empty(),
            detail_package: ui::plain_row(
                Seq::empty(),
                Seq::empty(),
                Seq::empty(),
                Seq::empty(),
                Seq::empty(),
                0,
                false,
                false,
            ),
            stats: StatsDataView {
                pacman_count: 0,
                flatpak_count: 0,
                orphan_count: 0,
                update_count: 0,
                cache_size: Seq::empty(),
            },
            current_page: 0,
            total_pages: 0,
            selected: Seq::empty(),
            selected_count: 0,
            selected_installed_count: 0,
            selected_uninstalled_count: 0,
        },
        status: StatusView {
            loading: false,
            busy: false,
            message: Seq::empty(),
            progress: 0,
            progress_text: Seq::empty(),
        },
        terminal: TerminalView {
            shown: false,
            title: Seq::empty(),
            output: Seq::empty(),
            done: false,
            success: false,
            pending: Seq::empty(),
        },
        popup: PopupView {
            shown: false,
            logs: false,
            title: Seq::empty(),
            percent: 0,
            stage: Seq::empty(),
            output: Seq::empty(),
            show_input: false,
            prompt: Seq::empty(),
            done: false,
            success: false,
        },
        local: LocalInstallView {
            shown: false,
            package: ui::plain_row(
                Seq::empty(),
                Seq::empty(),
                Seq::empty(),
                Seq::empty(),
                Seq::empty(),
                0,
                false,
                false,
            ),
            path: Seq::empty(),
        },
    }
}

/// No message shows the popup and the terminal over each other where at most one of them
/// was shown before.
pub proof fn popup_and_terminal_exclude_each_other(w: WindowView, m: UiMessageView)
    requires
        !(w.popup.shown && w.terminal.shown),
        !(m is ShowTerminal && w.popup.shown),
    ensures
        !(handled(w, m).popup.shown && handled(w, m).terminal.shown),
{
}

/// What is shown in the terminal is never longer than 16384 bytes, and what waits for it
/// never longer than 65536.
pub proof fn terminal_is_bounded(t: TerminalView, more: Seq<char>)
    requires
        can_wait(t, more),
        can_flush(t),
    ensures
        encode_utf8(with_output(t, more).pending).len() <= 65536,
        encode_utf8(flushed(t).output).len() <= 16384,
        flushed(t).pending.len() == 0,
{
    last_bytes_length(t.pending + more, 32768);
    last_bytes_length(combined(t), 16384);
}

/// An ending has the length that was asked for.
proof fn last_bytes_length(s: Seq<char>, n: nat)
    ensures
        text::last_bytes(s, n) matches Some(e) ==> encode_utf8(e).len() == n,
    decreases s.len(),
{
    if encode_utf8(s).len() != n && s.len() > 0 {
        last_bytes_length(s.drop_first(), n);
    }
}

/// A page holds fifty rows of a list, from where it stands, or what is left of them; and
/// there are as many pages as the rows fill, but at least one.
pub proof fn pages_hold_fifty(v: Seq<PackageDataView>, page: nat, i: int)
    ensures
        0 <= i < 50 && 50 * page + i < v.len() ==> i < page_of(v, page).len() && page_of(v, page)[i]
            == v[50 * page + i],
        50 * page + 50 <= v.len() ==> page_of(v, page).len() == 50,
        50 * page <= v.len() < 50 * page + 50 ==> page_of(v, page).len() == v.len() - 50 * page,
        50 * page > v.len() ==> page_of(v, page).len() == 0,
        page_count(0) == 1,
        0 < v.len() <= 0x7fff_ffff ==> 50 * (page_count(v.len()) - 1) < v.len() <= 50 * page_count(
            v.len(),
        ),
{
}

/// Results are parted by whether they are installed, in their order.
pub proof fn results_keep_their_order(v: Seq<PackageDataView>, installed: bool)
    ensures
        having(v, installed) == v.filter(|p: PackageDataView| p.installed == installed),
    decreases v.len(),
{
    reveal(Seq::filter);
    if v.len() > 0 {
        results_keep_their_order(v.drop_last(), installed);
    }
}

/// A selection is parted by whether the packages are installed, in their order.
pub proof fn selected_keep_their_order(v: Seq<SelectedView>, installed: bool)
    ensures
        chosen(v, installed) == v.filter(|s: SelectedView| s.installed == installed),
    decreases v.len(),
{
    reveal(Seq::filter);
    if v.len() > 0 {
        selected_keep_their_order(v.drop_last(), installed);
    }
}

/// To deselect a package takes it out of the selection, and no other.
pub proof fn deselecting_takes_out(v: Seq<SelectedView>, name: Seq<char>, backend: i32)
    ensures
        deselected(v, name, backend) == v.filter(
            |s: SelectedView| !(s.name == name && s.backend == backend),
        ),
    decreases v.len(),
{
    reveal(Seq::filter);
    if v.len() > 0 {
        deselecting_takes_out(v.drop_last(), name, backend);
    }
}

/// To select a package adds it at the end, with whether it is installed, unless it is
/// selected already; to deselect it takes it out.
pub proof fn selecting_adds(
    v: Seq<SelectedView>,
    name: Seq<char>,
    backend: i32,
    installed: bool,
)
    ensures
        (forall|i: int|
            0 <= i < v.len() ==> !((#[trigger] v[i]).name == name && v[i].backend == backend))
            ==> toggled(v, name, backend, true, installed) == v.push(
            SelectedView { name, backend, installed },
        ),
        (exists|i: int|
            0 <= i < v.len() && (#[trigger] v[i]).name == name && v[i].backend == backend)
            ==> toggled(v, name, backend, true, installed) == v,
        toggled(v, name, backend, false, installed) == v.filter(
            |s: SelectedView| !(s.name == name && s.backend == backend),
        ),
{
    deselecting_takes_out(v, name, backend);
    if exists|i: int|
        0 <= i < v.len() && (#[trigger] v[i]).name == name && v[i].backend == backend {
        let i = choose|i: int|
            0 <= i < v.len() && (#[trigger] v[i]).name == name && v[i].backend == backend;
        assert(v[i].name == name && v[i].backend == backend);
    }
}

/// Of a list the first row of a package is found, by its name and its source.
pub proof fn first_row_is_found(v: Seq<PackageDataView>, name: Seq<char>, backend: i32, i: int)
    requires
        0 <= i < v.len(),
        v[i].name == name,
        v[i].backend == backend,
        forall|k: int| 0 <= k < i ==> !((#[trigger] v[k]).name == name && v[k].backend == backend),
    ensures
        place(v, name, backend) == Some(i),
        first_of(v, name, backend) == Some(v[i]),
        forall|selected: bool| #[trigger]
            mark(v, name, backend, selected) == v.update(i, PackageDataView { selected, ..v[i] }),
{
    place_is_first(v, name, backend, 0);
    match place(v, name, backend) {
        Some(k) => {
            if k < i {
                assert(is_of(v[k], name, backend));
            }
            if i < k {
                assert(!is_of(v[i], name, backend));
            }
        },
        None => {
            assert(!is_of(v[i], name, backend));
        },
    }
}

/// A package that a list does not hold is not found in it, and marking it changes nothing.
pub proof fn missing_rows_are_not_found(v: Seq<PackageDataView>, name: Seq<char>, backend: i32)
    requires
        forall|k: int|
            0 <= k < v.len() ==> !((#[trigger] v[k]).name == name && v[k].backend == backend),
    ensures
        first_of(v, name, backend) is None,
        mark(v, name, backend, true) == v,
        mark(v, name, backend, false) == v,
{
    place_is_first(v, name, backend, 0);
    if let Some(k) = place(v, name, backend) {
        assert(is_of(v[k], name, backend));
    }
}

/// After a reload the details are those of the package as it is installed now, among the
/// packages or else among the applications; a package that is not there any more is shown
/// as not installed, and otherwise as before.
pub proof fn details_are_refreshed(
    detail: PackageDataView,
    installed: Seq<PackageDataView>,
    flatpak: Seq<PackageDataView>,
)
    requires
        detail.name.len() > 0,
    ensures
        first_of(installed, detail.name, detail.backend) matches Some(p) ==> refreshed(
            detail,
            installed,
            flatpak,
        ) == p,
        first_of(installed, detail.name, detail.backend) is None ==> (first_of(
            flatpak,
            detail.name,
            detail.backend,
        ) matches Some(p) ==> refreshed(detail, installed, flatpak) == p),
        first_of(installed, detail.name, detail.backend) is None && first_of(
            flatpak,
            detail.name,
            detail.backend,
        ) is None ==> {
            let p = refreshed(detail, installed, flatpak);
            &&& !p.installed
            &&& p == (PackageDataView { installed: p.installed, ..detail })
        },
        first_of(installed, detail.name, detail.backend) matches Some(p) ==> found_again(
            detail,
            installed,
        ) == p,
        first_of(installed, detail.name, detail.backend) is None ==> found_again(detail, installed)
            == detail,
{
}

/// Where no details are shown, none appear.
pub proof fn no_details_stay_away(
    detail: PackageDataView,
    installed: Seq<PackageDataView>,
    flatpak: Seq<PackageDataView>,
)
    requires
        detail.name.len() == 0,
    ensures
        refreshed(detail, installed, flatpak) == detail,
        found_again(detail, installed) == detail,
{
}

/// What was loaded takes the place of the lists: the first page of the packages, the
/// updates, the applications and the figures. Results, category, repository and selection
/// stay.
pub proof fn loading_fills_the_lists(
    l: ListsView,
    installed: Seq<PackageDataView>,
    updates: Seq<PackageDataView>,
    flatpak: Seq<PackageDataView>,
    stats: StatsDataView,
)
    ensures
        ({
            let n = with_loaded(l, installed, updates, flatpak, stats);
            &&& n.full_installed == installed
            &&& n.installed_packages == page_of(installed, 0)
            &&& n.update_packages == updates
            &&& n.flatpak_packages == flatpak
            &&& n.stats == stats
            &&& n.current_page == 0
            &&& n.total_pages == page_count(installed.len())
            &&& n.detail_package == refreshed(l.detail_package, installed, flatpak)
            &&& n.search_installed == l.search_installed
            &&& n.search_available == l.search_available
            &&& n.category_packages == l.category_packages
            &&& n.full_category == l.full_category
            &&& n.repo_packages == l.repo_packages
            &&& n.full_repo == l.full_repo
            &&& n.selected == l.selected
            &&& n.selected_count == l.selected_count
            &&& n.selected_installed_count == l.selected_installed_count
            &&& n.selected_uninstalled_count == l.selected_uninstalled_count
        }),
{
}

/// Results are shown in two lists, and change nothing but these and the details.
pub proof fn results_fill_their_lists(l: ListsView, results: Seq<PackageDataView>)
    ensures
        ({
            let n = with_results(l, results);
            &&& n.search_installed == results.filter(|p: PackageDataView| p.installed)
            &&& n.search_available == results.filter(|p: PackageDataView| !p.installed)
            &&& n.detail_package == found_again(l.detail_package, results)
            &&& n == (ListsView {
                search_installed: n.search_installed,
                search_available: n.search_available,
                detail_package: n.detail_package,
                ..l
            })
        }),
{
    results_keep_their_order(results, true);
    results_keep_their_order(results, false);
    assert((|p: PackageDataView| p.installed == true) =~= (|p: PackageDataView| p.installed));
    assert((|p: PackageDataView| p.installed == false) =~= (|p: PackageDataView| !p.installed));
}

/// A category and a repository are shown from their first page, each in its own list.
pub proof fn categories_and_repositories_are_paged(l: ListsView, v: Seq<PackageDataView>)
    ensures
        ({
            let n = with_category(l, v);
            &&& n.full_category == v
            &&& n.category_packages == page_of(v, 0)
            &&& n.current_page == 0
            &&& n.total_pages == page_count(v.len())
            &&& n.repo_packages == l.repo_packages
            &&& n.full_repo == l.full_repo
            &&& n.installed_packages == l.installed_packages
            &&& n.full_installed == l.full_installed
            &&& n.update_packages == l.update_packages
            &&& n.flatpak_packages == l.flatpak_packages
            &&& n.selected == l.selected
        }),
        ({
            let n = with_repo(l, v);
            &&& n.full_repo == v
            &&& n.repo_packages == page_of(v, 0)
            &&& n.current_page == 0
            &&& n.total_pages == page_count(v.len())
            &&& n.category_packages == l.category_packages
            &&& n.full_category == l.full_category
            &&& n.installed_packages == l.installed_packages
            &&& n.full_installed == l.full_installed
            &&& n.update_packages == l.update_packages
            &&& n.flatpak_packages == l.flatpak_packages
            &&& n.selected == l.selected
        }),
{
}

/// A page is turned in the list that is shown, that of the packages, of a category or of a
/// repository, and in no other; other views have no pages.
pub proof fn pages_are_turned_where_shown(l: ListsView, view: i32, page: nat)
    ensures
        ({
            let n = with_page(l, view, page);
            &&& view == 0 ==> n.installed_packages == page_of(l.full_installed, page)
                && n.total_pages == page_count(l.full_installed.len())
            &&& view != 0 ==> n.installed_packages == l.installed_packages
            &&& view == 7 ==> n.category_packages == page_of(l.full_category, page)
                && n.total_pages == page_count(l.full_category.len())
            &&& view != 7 ==> n.category_packages == l.category_packages
            &&& view == 8 ==> n.repo_packages == page_of(l.full_repo, page) && n.total_pages
                == page_count(l.full_repo.len())
            &&& view != 8 ==> n.repo_packages == l.repo_packages
            &&& view != 0 && view != 7 && view != 8 ==> n == l
            &&& n.full_installed == l.full_installed
            &&& n.full_category == l.full_category
            &&& n.full_repo == l.full_repo
            &&& n.selected == l.selected
        }),
{
}

/// A package is marked in every list that is shown, and in nothing else.
pub proof fn every_shown_list_is_marked(
    l: ListsView,
    name: Seq<char>,
    backend: i32,
    selected: bool,
)
    ensures
        ({
            let n = with_mark(l, name, backend, selected);
            &&& n.installed_packages == mark(l.installed_packages, name, backend, selected)
            &&& n.update_packages == mark(l.update_packages, name, backend, selected)
            &&& n.search_installed == mark(l.search_installed, name, backend, selected)
            &&& n.search_available == mark(l.search_available, name, backend, selected)
            &&& n.flatpak_packages == mark(l.flatpak_packages, name, backend, selected)
            &&& n.category_packages == mark(l.category_packages, name, backend, selected)
            &&& n.repo_packages == mark(l.repo_packages, name, backend, selected)
            &&& n.full_installed == l.full_installed
            &&& n.full_category == l.full_category
            &&& n.full_repo == l.full_repo
            &&& n.detail_package == l.detail_package
            &&& n.selected == l.selected
            &&& n.selected_count == l.selected_count
            &&& n.current_page == l.current_page
        }),
{
}

/// Whether a package is installed is what the first list says that shows it, and a package
/// that no list shows is not.
pub proof fn first_list_says_what_is_installed(
    l: ListsView,
    name: Seq<char>,
    backend: i32,
    k: int,
    p: PackageDataView,
)
    requires
        0 <= k < 7,
        ({
            let shown = seq![
                l.installed_packages,
                l.update_packages,
                l.search_installed,
                l.search_available,
                l.flatpak_packages,
                l.category_packages,
                l.repo_packages,
            ];
            &&& first_of(shown[k], name, backend) == Some(p)
            &&& forall|j: int| 0 <= j < k ==> first_of(#[trigger] shown[j], name, backend) is None
        }),
    ensures
        shown_installed(l, name, backend) == p.installed,
{
    let shown = seq![
        l.installed_packages,
        l.update_packages,
        l.search_installed,
        l.search_available,
        l.flatpak_packages,
        l.category_packages,
        l.repo_packages,
    ];
    assert(k > 0 ==> first_of(shown[0], name, backend) is None);
    assert(k > 1 ==> first_of(shown[1], name, backend) is None);
    assert(k > 2 ==> first_of(shown[2], name, backend) is None);
    assert(k > 3 ==> first_of(shown[3], name, backend) is None);
    assert(k > 4 ==> first_of(shown[4], name, backend) is None);
    assert(k > 5 ==> first_of(shown[5], name, backend) is None);
}

/// The figures of a selection are how many packages are in it, and how many of them are
/// installed and are not.
pub proof fn selections_are_counted(l: ListsView, v: Seq<SelectedView>)
    requires
        v.len() <= i32::MAX,
    ensures
        ({
            let n = with_selection(l, v);
            &&& n.selected == v
            &&& n.selected_count == v.len()
            &&& n.selected_installed_count == v.filter(|s: SelectedView| s.installed).len()
            &&& n.selected_uninstalled_count == v.filter(|s: SelectedView| !s.installed).len()
            &&& n.installed_packages == l.installed_packages
            &&& n.update_packages == l.update_packages
            &&& n.detail_package == l.detail_package
        }),
{
    selected_keep_their_order(v, true);
    selected_keep_their_order(v, false);
    selection_is_parted(v);
    assert((|s: SelectedView| s.installed == true) =~= (|s: SelectedView| s.installed));
    assert((|s: SelectedView| s.installed == false) =~= (|s: SelectedView| !s.installed));
}

/// To toggle a package marks it where it is shown and keeps the selection and its figures
/// in step.
pub proof fn toggles_reach_selection_and_lists(
    l: ListsView,
    name: Seq<char>,
    backend: i32,
    selected: bool,
)
    ensures
        ({
            let n = with_toggle(l, name, backend, selected);
            let v = toggled(
                l.selected,
                name,
                backend,
                selected,
                shown_installed(l, name, backend),
            );
            &&& n.selected == v
            &&& v.len() <= i32::MAX ==> n.selected_count == v.len()
            &&& n.installed_packages == mark(l.installed_packages, name, backend, selected)
            &&& n.update_packages == mark(l.update_packages, name, backend, selected)
            &&& n.search_installed == mark(l.search_installed, name, backend, selected)
            &&& n.search_available == mark(l.search_available, name, backend, selected)
            &&& n.flatpak_packages == mark(l.flatpak_packages, name, backend, selected)
            &&& n.category_packages == mark(l.category_packages, name, backend, selected)
            &&& n.repo_packages == mark(l.repo_packages, name, backend, selected)
        }),
{
}

/// Once the selection is cleared nothing is selected, the figures are nothing, and every
/// package that was selected is unmarked.
pub proof fn clearing_empties_the_selection(l: ListsView, v: Seq<SelectedView>, last: SelectedView)
    ensures
        cleared(l).selected.len() == 0,
        cleared(l).selected_count == 0,
        cleared(l).selected_installed_count == 0,
        cleared(l).selected_uninstalled_count == 0,
        without_marks(l, Seq::empty()) == l,
        without_marks(l, v.push(last)) == with_mark(
            without_marks(l, v),
            last.name,
            last.backend,
            false,
        ),
{
    assert(v.push(last).drop_last() =~= v);
    let none = ListsView {
        selected: Seq::empty(),
        selected_count: 0,
        selected_installed_count: 0,
        selected_uninstalled_count: 0,
        ..l
    };
    unmarking_only_unmarks(none, l.selected);
}

/// To take the marks away changes no selection.
proof fn unmarking_only_unmarks(l: ListsView, v: Seq<SelectedView>)
    ensures
        without_marks(l, v).selected == l.selected,
        without_marks(l, v).selected_count == l.selected_count,
        without_marks(l, v).selected_installed_count == l.selected_installed_count,
        without_marks(l, v).selected_uninstalled_count == l.selected_uninstalled_count,
    decreases v.len(),
{
    if v.len() > 0 {
        unmarking_only_unmarks(l, v.drop_last());
    }
}

/// A job for a selection is there exactly where something is selected, names how many
/// packages it is for, and is for all of them, in order.
pub proof fn jobs_are_for_all_selected(
    j: Job,
    v: Seq<SelectedView>,
    doing: Seq<char>,
    action: Seq<char>,
)
    ensures
        is_bulk_job(None, v, doing, action) <==> v.len() == 0,
        is_bulk_job(Some(j), v, doing, action) ==> v.len() > 0 && j@ == jobs::job(
            doing + text::decimal(v.len()) + " packages"@,
            action,
            v.map_values(|s: SelectedView| s.name),
            v[0].backend,
        ),
{
    assert(selected_names(v) =~= v.map_values(|s: SelectedView| s.name));
}

/// Output waits until it is shown: what comes is added at the end, and of too much the end
/// is kept.
pub proof fn output_waits(t: TerminalView, more: Seq<char>)
    requires
        can_wait(t, more),
    ensures
        ({
            let n = with_output(t, more);
            &&& encode_utf8(t.pending + more).len() <= 65536 ==> n.pending == t.pending + more
            &&& encode_utf8(t.pending + more).len() > 65536 ==> {
                &&& encode_utf8(n.pending).len() == 32768
                &&& exists|a: Seq<char>| t.pending + more == #[trigger] (a + n.pending)
            }
            &&& n == (TerminalView { pending: n.pending, ..t })
        }),
{
    let all = t.pending + more;
    if encode_utf8(all).len() > 65536 {
        last_bytes_length(all, 32768);
        text::last_bytes_are_at_the_end(all, 32768);
    }
}

/// What waited is shown behind what was shown, and of too much the end is kept.
pub proof fn waiting_output_is_shown(t: TerminalView)
    requires
        can_flush(t),
    ensures
        ({
            let all = terminal::terminal_text(
                t.output,
                text::replace(t.pending, seq!['\r', '\n'], seq!['\n']),
            );
            let n = flushed(t);
            &&& n.pending.len() == 0
            &&& encode_utf8(all).len() <= 16384 ==> n.output == all
            &&& encode_utf8(all).len() > 16384 ==> {
                &&& encode_utf8(n.output).len() == 16384
                &&& exists|a: Seq<char>| all == #[trigger] (a + n.output)
            }
            &&& n == (TerminalView { pending: n.pending, output: n.output, ..t })
        }),
{
    let all = combined(t);
    if encode_utf8(all).len() > 16384 {
        last_bytes_length(all, 16384);
        text::last_bytes_are_at_the_end(all, 16384);
        let kept = flushed(t).output;
        let a = choose|a: Seq<char>| all == #[trigger] (a + kept);
        assert(all == a + kept);
    }
    assert(flushed(t).pending.len() == 0);
}

/// When an operation has ended, or a terminal with success, everything is loaded anew: the
/// search that is shown, and the repository that is shown. A success closes by itself, and
/// the end of a terminal shows what waited.
pub proof fn ends_have_their_effects(w: WindowView, m: UiMessageView)
    ensures
        effect(w, m).refresh is Some <==> (m is OperationDone || m == UiMessageView::TerminalDone(
            true,
        )),
        effect(w, m).refresh matches Some(r) ==> {
            &&& w.search_text.len() > 0 ==> r.search == Some(w.search_text)
            &&& w.search_text.len() == 0 ==> r.search is None
            &&& w.view == 8 && w.repo_name.len() > 0 ==> r.repo == Some(w.repo_name)
            &&& w.view != 8 || w.repo_name.len() == 0 ==> r.repo is None
        },
        effect(w, m).auto_close <==> m == UiMessageView::OperationDone(true),
        effect(w, m).flush <==> m is TerminalDone || m is ShowTerminalFallback,
{
}

/// The lists of a message are shown, and nothing is loading any more.
pub proof fn lists_are_shown(
    w: WindowView,
    installed: Seq<PackageDataView>,
    updates: Seq<PackageDataView>,
    flatpak: Seq<PackageDataView>,
    firmware: Seq<PackageDataView>,
    stats: StatsDataView,
)
    ensures
        ({
            let n = handled(
                w,
                UiMessageView::PackagesLoaded { installed, updates, flatpak, firmware, stats },
            );
            &&& n.lists == with_loaded(w.lists, installed, updates, flatpak, stats)
            &&& !n.status.loading
            &&& n == (WindowView {
                lists: n.lists,
                status: StatusView { loading: false, ..w.status },
                ..w
            })
        }),
        ({
            let n = handled(w, UiMessageView::SearchResults(installed));
            &&& n.lists == with_results(w.lists, installed)
            &&& n == (WindowView {
                lists: n.lists,
                status: StatusView { loading: false, ..w.status },
                ..w
            })
        }),
        ({
            let n = handled(w, UiMessageView::CategoryPackages(installed));
            &&& n.lists == with_category(w.lists, installed)
            &&& n == (WindowView {
                lists: n.lists,
                status: StatusView { loading: false, ..w.status },
                ..w
            })
        }),
        ({
            let n = handled(w, UiMessageView::RepoPackages(installed));
            &&& n.lists == with_repo(w.lists, installed)
            &&& n == (WindowView {
                lists: n.lists,
                status: StatusView { loading: false, ..w.status },
                ..w
            })
        }),
{
}

/// A message on the status changes the one thing that it tells.
pub proof fn status_is_shown(w: WindowView, b: bool, n: i32, s: Seq<char>)
    ensures
        handled(w, UiMessageView::SetLoading(b)) == (WindowView {
            status: StatusView { loading: b, ..w.status },
            ..w
        }),
        handled(w, UiMessageView::SetBusy(b)) == (WindowView {
            status: StatusView { busy: b, ..w.status },
            ..w
        }),
        handled(w, UiMessageView::SetStatus(s)) == (WindowView {
            status: StatusView { message: s, ..w.status },
            ..w
        }),
        handled(w, UiMessageView::SetProgress(n)) == (WindowView {
            status: StatusView { progress: n, ..w.status },
            ..w
        }),
        handled(w, UiMessageView::SetProgressText(s)) == (WindowView {
            status: StatusView { progress_text: s, ..w.status },
            ..w
        }),
{
}

/// A terminal begins empty, under its title; it takes output, ends, and is hidden together
/// with the popup. What could not run in the popup goes on in a terminal of the same title.
pub proof fn terminals_follow_their_messages(w: WindowView, s: Seq<char>, success: bool)
    ensures
        ({
            let n = handled(w, UiMessageView::ShowTerminal(s));
            &&& n.terminal.shown && n.terminal.title == s && n.terminal.output.len() == 0
            &&& !n.terminal.done && !n.terminal.success && n.terminal.pending.len() == 0
            &&& n == (WindowView { terminal: n.terminal, ..w })
        }),
        handled(w, UiMessageView::TerminalOutput(s)) == (WindowView {
            terminal: with_output(w.terminal, s),
            ..w
        }),
        handled(w, UiMessageView::TerminalDone(success)) == (WindowView {
            terminal: TerminalView { done: true, success, ..w.terminal },
            ..w
        }),
        handled(w, UiMessageView::HideTerminal) == (WindowView {
            terminal: TerminalView { shown: false, ..w.terminal },
            popup: PopupView { shown: false, ..w.popup },
            ..w
        }),
        ({
            let n = handled(w, UiMessageView::ShowTerminalFallback(s));
            &&& n.terminal.shown && n.terminal.title == w.popup.title
            &&& n.terminal.output.len() == 0 && n.terminal.pending == s
            &&& !n.terminal.done && !n.terminal.success
            &&& n.popup == (PopupView { shown: false, ..w.popup })
            &&& n == (WindowView { terminal: n.terminal, popup: n.popup, ..w })
        }),
{
}

/// A popup begins at nothing, under its title, in place of a terminal; it shows its output,
/// its question and its progress; and its end is at 100, with no question left, its outcome
/// kept, and the log open where it failed. A success empties the figure of the selection.
pub proof fn popups_follow_their_messages(w: WindowView, s: Seq<char>, percent: i32, success: bool)
    ensures
        ({
            let n = handled(w, UiMessageView::ShowProgressPopup(s));
            &&& n.popup.shown && !n.popup.logs && n.popup.title == s && n.popup.percent == 0
            &&& n.popup.stage == "Starting..."@ && n.popup.output.len() == 0
            &&& !n.popup.show_input && n.popup.prompt.len() == 0
            &&& !n.popup.done && !n.popup.success
            &&& n.terminal == (TerminalView { shown: false, ..w.terminal })
            &&& n == (WindowView { popup: n.popup, terminal: n.terminal, ..w })
        }),
        handled(w, UiMessageView::ProgressOutput(s)) == (WindowView {
            popup: PopupView { output: s, ..w.popup },
            ..w
        }),
        handled(w, UiMessageView::ProgressPrompt(s)) == (WindowView {
            popup: PopupView { prompt: s, show_input: true, ..w.popup },
            ..w
        }),
        ({
            let n = handled(w, UiMessageView::ProgressHidePrompt);
            &&& !n.popup.show_input && n.popup.prompt.len() == 0
            &&& n == (WindowView {
                popup: PopupView { show_input: false, prompt: n.popup.prompt, ..w.popup },
                ..w
            })
        }),
        handled(w, UiMessageView::OperationProgress(percent, s)) == (WindowView {
            popup: PopupView { percent, stage: s, ..w.popup },
            ..w
        }),
        ({
            let n = handled(w, UiMessageView::OperationDone(success));
            &&& n.popup.percent == 100 && n.popup.done && n.popup.success == success
            &&& !n.popup.show_input && n.popup.prompt.len() == 0
            &&& n.popup.logs == (w.popup.logs || !success)
            &&& n.popup.shown == w.popup.shown && n.popup.title == w.popup.title
            &&& n.popup.stage == w.popup.stage && n.popup.output == w.popup.output
            &&& success ==> n.lists == (ListsView { selected_count: 0, ..w.lists })
            &&& !success ==> n.lists == w.lists
            &&& n == (WindowView { popup: n.popup, lists: n.lists, ..w })
        }),
{
}

/// A window begins with nothing in it: no list, no text, no terminal and no popup.
pub proof fn windows_begin_blank()
    ensures
        blank().view == 0,
        blank().search_text.len() == 0,
        blank().repo_name.len() == 0,
        blank().lists.installed_packages.len() == 0,
        blank().lists.update_packages.len() == 0,
        blank().lists.search_installed.len() == 0,
        blank().lists.search_available.len() == 0,
        blank().lists.flatpak_packages.len() == 0,
        blank().lists.category_packages.len() == 0,
        blank().lists.repo_packages.len() == 0,
        blank().lists.full_installed.len() == 0,
        blank().lists.full_category.len() == 0,
        blank().lists.full_repo.len() == 0,
        blank().lists.detail_package.name.len() == 0,
        blank().lists.selected.len() == 0,
        blank().lists.selected_count == 0,
        blank().lists.current_page == 0,
        !blank().status.loading,
        !blank().status.busy,
        blank().status.progress == 0,
        !blank().terminal.shown,
        !blank().terminal.done,
        blank().terminal.pending.len() == 0,
        !blank().popup.shown,
        !blank().popup.done,
        blank().popup.percent == 0,
        !blank().local.shown,
{
}

} // verus!
