//! What the window shows, and the messages that change it.
use vstd::prelude::*;

verus! {

/// A row of a package list.
#[derive(Debug)]
pub struct PackageData {
    /// The name that the backend knows it by.
    pub name: String,
    /// The name to show.
    pub display_name: String,
    /// The version to show.
    pub version: String,
    /// What it is, in a line.
    pub description: String,
    /// Where it comes from.
    pub repository: String,
    /// 0 for pacman, 1 for Flatpak, 2 for a local file, 3 for a plasmoid, 4 for firmware.
    pub backend: i32,
    /// Whether it is installed.
    pub installed: bool,
    /// Whether an update is on offer.
    pub has_update: bool,
    /// Its size, formatted.
    pub installed_size: String,
    /// Its licences.
    pub licenses: String,
    /// A page about it.
    pub url: String,
    /// What it needs.
    pub dependencies: String,
    /// What needs it.
    pub required_by: String,
    /// The icon to show.
    pub icon_name: String,
    /// Whether the user has marked it.
    pub selected: bool,
}

/// What a `PackageData` holds.
#[verifier::ext_equal]
pub struct PackageDataView {
    pub name: Seq<char>,
    pub display_name: Seq<char>,
    pub version: Seq<char>,
    pub description: Seq<char>,
    pub repository: Seq<char>,
    pub backend: i32,
    pub installed: bool,
    pub has_update: bool,
    pub installed_size: Seq<char>,
    pub licenses: Seq<char>,
    pub url: Seq<char>,
    pub dependencies: Seq<char>,
    pub required_by: Seq<char>,
    pub icon_name: Seq<char>,
    pub selected: bool,
}

impl View for PackageData {
    type V = PackageDataView;

    open spec fn view(&self) -> PackageDataView {
        PackageDataView {
            name: self.name@,
            display_name: self.display_name@,
            version: self.version@,
            description: self.description@,
            repository: self.repository@,
            backend: self.backend,
            installed: self.installed,
            has_update: self.has_update,
            installed_size: self.installed_size@,
            licenses: self.licenses@,
            url: self.url@,
            dependencies: self.dependencies@,
            required_by: self.required_by@,
            icon_name: self.icon_name@,
            selected: self.selected,
        }
    }
}

impl Clone for PackageData {
    fn clone(&self) -> (r: Self)
        ensures
            r@ == self@,
    {
        PackageData {
            name: self.name.clone(),
            display_name: self.display_name.clone(),
            version: self.version.clone(),
            description: self.description.clone(),
            repository: self.repository.clone(),
            backend: self.backend,
            installed: self.installed,
            has_update: self.has_update,
            installed_size: self.installed_size.clone(),
            licenses: self.licenses.clone(),
            url: self.url.clone(),
            dependencies: self.dependencies.clone(),
            required_by: self.required_by.clone(),
            icon_name: self.icon_name.clone(),
            selected: self.selected,
        }
    }
}

/// The figures of the overview.
#[derive(Debug)]
pub struct StatsData {
    /// Installed packages.
    pub pacman_count: i32,
    /// Flatpak applications.
    pub flatpak_count: i32,
    /// Packages that nothing needs any more.
    pub orphan_count: i32,
    /// Updates on offer.
    pub update_count: i32,
    /// The size of the package cache, formatted.
    pub cache_size: String,
}

/// What a `StatsData` holds.
#[verifier::ext_equal]
pub struct StatsDataView {
    pub pacman_count: i32,
    pub flatpak_count: i32,
    pub orphan_count: i32,
    pub update_count: i32,
    pub cache_size: Seq<char>,
}

impl View for StatsData {
    type V = StatsDataView;

    open spec fn view(&self) -> StatsDataView {
        StatsDataView {
            pacman_count: self.pacman_count,
            flatpak_count: self.flatpak_count,
            orphan_count: self.orphan_count,
            update_count: self.update_count,
            cache_size: self.cache_size@,
        }
    }
}

impl Clone for StatsData {
    fn clone(&self) -> (r: Self)
        ensures
            r@ == self@,
    {
        StatsData {
            pacman_count: self.pacman_count,
            flatpak_count: self.flatpak_count,
            orphan_count: self.orphan_count,
            update_count: self.update_count,
            cache_size: self.cache_size.clone(),
        }
    }
}

/// What the rows of a list hold.
pub open spec fn rows(v: Seq<PackageData>) -> Seq<PackageDataView> {
    v.map_values(|p: PackageData| p@)
}

/// A row with these properties and nothing else filled in.
pub open spec fn plain_row(
    name: Seq<char>,
    display_name: Seq<char>,
    version: Seq<char>,
    description: Seq<char>,
    repository: Seq<char>,
    backend: i32,
    installed: bool,
    has_update: bool,
) -> PackageDataView {
    PackageDataView {
        name,
        display_name,
        version,
        description,
        repository,
        backend,
        installed,
        has_update,
        installed_size: Seq::empty(),
        licenses: Seq::empty(),
        url: Seq::empty(),
        dependencies: Seq::empty(),
        required_by: Seq::empty(),
        icon_name: Seq::empty(),
        selected: false,
    }
}

impl PackageData {
    /// A row with these properties and nothing else filled in.
    pub fn plain(
        name: String,
        display_name: String,
        version: String,
        description: String,
        repository: String,
        backend: i32,
        installed: bool,
        has_update: bool,
    ) -> (r: PackageData)
        ensures
            r@ == plain_row(
                name@,
                display_name@,
                version@,
                description@,
                repository@,
                backend,
                installed,
                has_update,
            ),
    {
        PackageData {
            name,
            display_name,
            version,
            description,
            repository,
            backend,
            installed,
            has_update,
            installed_size: String::new(),
            licenses: String::new(),
            url: String::new(),
            dependencies: String::new(),
            required_by: String::new(),
            icon_name: String::new(),
            selected: false,
        }
    }
}

/// The rows from `from` up to `to`, as they are.
pub fn copy_rows(v: &Vec<PackageData>, from: usize, to: usize) -> (r: Vec<PackageData>)
    requires
        from <= to <= v@.len(),
    ensures
        rows(r@) == rows(v@).subrange(from as int, to as int),
{
    let mut r: Vec<PackageData> = Vec::new();
    let mut i: usize = from;
    while i < to
        invariant
            from <= i <= to <= v@.len(),
            rows(r@) == rows(v@).subrange(from as int, i as int),
        decreases to - i,
    {
        let ghost before = r@;
        r.push(v[i].clone());
        i += 1;
        proof {
            assert(rows(r@) =~= rows(before).push(v@[i - 1]@));
            assert(rows(v@).subrange(from as int, i as int) =~= rows(v@).subrange(
                from as int,
                i - 1,
            ).push(v@[i - 1]@));
        }
    }
    r
}

/// A message to the window.
#[derive(Debug)]
pub enum UiMessage {
    /// The lists have been loaded.
    PackagesLoaded {
        installed: Vec<PackageData>,
        updates: Vec<PackageData>,
        flatpak: Vec<PackageData>,
        firmware: Vec<PackageData>,
        stats: StatsData,
    },
    /// A search has ended.
    SearchResults(Vec<PackageData>),
    /// A category has been loaded.
    CategoryPackages(Vec<PackageData>),
    /// A repository has been loaded.
    RepoPackages(Vec<PackageData>),
    /// Loading has begun or ended.
    SetLoading(bool),
    /// Work has begun or ended.
    SetBusy(bool),
    /// The status line.
    SetStatus(String),
    /// The progress bar's value.
    SetProgress(i32),
    /// The progress bar's text.
    SetProgressText(String),
    /// Open the terminal under this title.
    ShowTerminal(String),
    /// More output for the terminal.
    TerminalOutput(String),
    /// The terminal's command has ended, successfully or not.
    TerminalDone(bool),
    /// Close the terminal.
    HideTerminal,
    /// Open the progress popup under this title.
    ShowProgressPopup(String),
    /// The output that the popup shows.
    ProgressOutput(String),
    /// The popup asks the user this.
    ProgressPrompt(String),
    /// The popup asks nothing any more.
    ProgressHidePrompt,
    /// How far the operation is, and its stage.
    OperationProgress(i32, String),
    /// The operation has ended, successfully or not.
    OperationDone(bool),
    /// Go on in the terminal, with this output so far.
    ShowTerminalFallback(String),
}

/// What a message says.
#[verifier::ext_equal]
pub enum UiMessageView {
    PackagesLoaded {
        installed: Seq<PackageDataView>,
        updates: Seq<PackageDataView>,
        flatpak: Seq<PackageDataView>,
        firmware: Seq<PackageDataView>,
        stats: StatsDataView,
    },
    SearchResults(Seq<PackageDataView>),
    CategoryPackages(Seq<PackageDataView>),
    RepoPackages(Seq<PackageDataView>),
    SetLoading(bool),
    SetBusy(bool),
    SetStatus(Seq<char>),
    SetProgress(i32),
    SetProgressText(Seq<char>),
    ShowTerminal(Seq<char>),
    TerminalOutput(Seq<char>),
    TerminalDone(bool),
    HideTerminal,
    ShowProgressPopup(Seq<char>),
    ProgressOutput(Seq<char>),
    ProgressPrompt(Seq<char>),
    ProgressHidePrompt,
    OperationProgress(i32, Seq<char>),
    OperationDone(bool),
    ShowTerminalFallback(Seq<char>),
}

impl View for UiMessage {
    type V = UiMessageView;

    open spec fn view(&self) -> UiMessageView {
        match *self {
            UiMessage::PackagesLoaded { installed, updates, flatpak, firmware, stats } =>
                UiMessageView::PackagesLoaded {
                    installed: rows(installed@),
                    updates: rows(updates@),
                    flatpak: rows(flatpak@),
                    firmware: rows(firmware@),
                    stats: stats@,
                },
            UiMessage::SearchResults(v) => UiMessageView::SearchResults(rows(v@)),
            UiMessage::CategoryPackages(v) => UiMessageView::CategoryPackages(rows(v@)),
            UiMessage::RepoPackages(v) => UiMessageView::RepoPackages(rows(v@)),
            UiMessage::SetLoading(b) => UiMessageView::SetLoading(b),
            UiMessage::SetBusy(b) => UiMessageView::SetBusy(b),
            UiMessage::SetStatus(s) => UiMessageView::SetStatus(s@),
            UiMessage::SetProgress(n) => UiMessageView::SetProgress(n),
            UiMessage::SetProgressText(s) => UiMessageView::SetProgressText(s@),
            UiMessage::ShowTerminal(s) => UiMessageView::ShowTerminal(s@),
            UiMessage::TerminalOutput(s) => UiMessageView::TerminalOutput(s@),
            UiMessage::TerminalDone(b) => UiMessageView::TerminalDone(b),
            UiMessage::HideTerminal => UiMessageView::HideTerminal,
            UiMessage::ShowProgressPopup(s) => UiMessageView::ShowProgressPopup(s@),
            UiMessage::ProgressOutput(s) => UiMessageView::ProgressOutput(s@),
            UiMessage::ProgressPrompt(s) => UiMessageView::ProgressPrompt(s@),
            UiMessage::ProgressHidePrompt => UiMessageView::ProgressHidePrompt,
            UiMessage::OperationProgress(n, s) => UiMessageView::OperationProgress(n, s@),
            UiMessage::OperationDone(b) => UiMessageView::OperationDone(b),
            UiMessage::ShowTerminalFallback(s) => UiMessageView::ShowTerminalFallback(s@),
        }
    }
}

/// What a list of messages says.
pub open spec fn messages(v: Seq<UiMessage>) -> Seq<UiMessageView> {
    v.map_values(|m: UiMessage| m@)
}

/// Appends a message.
pub fn send(v: &mut Vec<UiMessage>, m: UiMessage)
    ensures
        messages(final(v)@) == messages(old(v)@).push(m@),
{
    let ghost before = v@;
    v.push(m);
    assert(messages(v@) =~= messages(before).push(m@));
}

/// A plain row holds what it was given, is not selected, and says nothing more.
pub proof fn plain_rows_hold_what_is_given(
    name: Seq<char>,
    display_name: Seq<char>,
    version: Seq<char>,
    description: Seq<char>,
    repository: Seq<char>,
    backend: i32,
    installed: bool,
    has_update: bool,
)
    ensures
        ({
            let row = plain_row(
                name,
                display_name,
                version,
                description,
                repository,
                backend,
                installed,
                has_update,
            );
            &&& row.name == name
            &&& row.display_name == display_name
            &&& row.version == version
            &&& row.description == description
            &&& row.repository == repository
            &&& row.backend == backend
            &&& row.installed == installed
            &&& row.has_update == has_update
            &&& !row.selected
            &&& row.installed_size.len() == 0
            &&& row.licenses.len() == 0
            &&& row.url.len() == 0
            &&& row.dependencies.len() == 0
            &&& row.required_by.len() == 0
            &&& row.icon_name.len() == 0
        }),
{
}

} // verus!
