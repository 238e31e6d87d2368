//! The package lists: what the backends report, as rows to show.
use crate::appstream::AppMap;
use crate::bytes;
use crate::names;
use crate::names::NameMap;
use crate::package;
use crate::package::{
    Package, PackageBackend, PackageStatus, PackageView, SearchResult, SearchResultView, UpdateInfo,
    UpdateInfoView, Version,
};
use crate::text;
use crate::text::Sep;
use crate::ui;
use crate::ui::{PackageData, PackageDataView, StatsData, StatsDataView, UiMessage, UiMessageView};
use crate::utils;
use vstd::hash_set::StringHashSet;
use vstd::prelude::*;
use vstd::string::*;

verus! {

broadcast use vstd::seq_lib::group_seq_properties;

/// The update that a line `name old -> new` or `name new` announces.
pub open spec fn announced(line: Seq<char>) -> Option<UpdateInfoView> {
    let w = text::words(line);
    if w.len() >= 2 {
        Some(
            UpdateInfoView {
                name: w[0],
                current_version: if w.len() >= 4 {
                    w[1]
                } else {
                    Seq::empty()
                },
                new_version: if w.len() >= 4 {
                    w[3]
                } else {
                    w[1]
                },
                backend: PackageBackend::Pacman,
                repository: Seq::empty(),
                download_size: 0,
            },
        )
    } else {
        None
    }
}

/// The updates that lines announce.
pub open spec fn announcements(ls: Seq<Seq<char>>) -> Seq<UpdateInfoView>
    decreases ls.len(),
{
    if ls.len() == 0 {
        Seq::empty()
    } else {
        match announced(ls.last()) {
            Some(u) => announcements(ls.drop_last()).push(u),
            None => announcements(ls.drop_last()),
        }
    }
}

/// The update that a line announces.
fn parse_update(line: &[char]) -> (r: Option<UpdateInfo>)
    ensures
        match r {
            Some(u) => announced(line@) == Some(u@),
            None => announced(line@) is None,
        },
{
    let w = text::words_of(line);
    let ghost all = text::texts(w@);
    let n: usize = w.len();
    if n >= 4 {
        assert(all[0] == w@[0]@ && all[1] == w@[1]@ && all[3] == w@[3]@);
        Some(
            UpdateInfo {
                name: text::text_of(w[0].as_slice()),
                current_version: Version { text: text::text_of(w[1].as_slice()) },
                new_version: Version { text: text::text_of(w[3].as_slice()) },
                backend: PackageBackend::Pacman,
                repository: String::new(),
                download_size: 0,
            },
        )
    } else if n >= 2 {
        assert(all[0] == w@[0]@ && all[1] == w@[1]@);
        Some(
            UpdateInfo {
                name: text::text_of(w[0].as_slice()),
                current_version: Version { text: String::new() },
                new_version: Version { text: text::text_of(w[1].as_slice()) },
                backend: PackageBackend::Pacman,
                repository: String::new(),
                download_size: 0,
            },
        )
    } else {
        None
    }
}

/// The updates that a listing announces, line by line.
pub fn parse_updates(listing: &str) -> (r: Vec<UpdateInfo>)
    ensures
        package::updates(r@) == announcements(text::lines(listing@)),
{
    let chars = text::chars_of(listing);
    let ls = text::lines_of(chars.as_slice());
    let ghost all = text::texts(ls@);
    let mut r: Vec<UpdateInfo> = Vec::new();
    let mut i: usize = 0;
    assert(all.take(0) =~= Seq::empty());
    assert(package::updates(r@) =~= Seq::empty());
    while i < ls.len()
        invariant
            i <= ls@.len(),
            all == text::texts(ls@),
            package::updates(r@) == announcements(all.take(i as int)),
        decreases ls@.len() - i,
    {
        let ghost before = package::updates(r@);
        assert(all.take(i + 1).drop_last() =~= all.take(i as int));
        assert(all.take(i + 1).last() == ls@[i as int]@);
        match parse_update(ls[i].as_slice()) {
            Some(u) => {
                r.push(u);
                assert(package::updates(r@) =~= before.push(u@));
            },
            None => {},
        }
        i += 1;
    }
    assert(all.take(all.len() as int) =~= all);
    r
}

/// The updates of the raw output of an update check, where there is one.
pub open spec fn checked_updates(output: Option<Vec<u8>>) -> Seq<UpdateInfoView> {
    match output {
        Some(b) => announcements(text::lines(bytes::lossy_text(b@))),
        None => Seq::empty(),
    }
}

/// The updates of the raw output of an update check, where there is one.
pub fn updates_of(output: &Option<Vec<u8>>) -> (r: Vec<UpdateInfo>)
    ensures
        package::updates(r@) == checked_updates(*output),
{
    match output {
        Some(b) => {
            let t = bytes::lossy(b.as_slice());
            parse_updates(t.as_str())
        },
        None => {
            let r: Vec<UpdateInfo> = Vec::new();
            assert(package::updates(r@) =~= Seq::empty());
            r
        },
    }
}

/// The names of updates.
pub open spec fn update_names(v: Seq<UpdateInfoView>) -> Seq<Seq<char>> {
    v.map_values(|u: UpdateInfoView| u.name)
}

/// The names of updates, to look up.
pub fn names_of(v: &Vec<UpdateInfo>) -> (r: StringHashSet)
    ensures
        forall|name: Seq<char>| #[trigger]
            r@.contains(name) <==> update_names(package::updates(v@)).contains(name),
{
    let ghost all = update_names(package::updates(v@));
    let mut r = StringHashSet::new();
    let mut i: usize = 0;
    assert(all.take(0) =~= Seq::empty());
    while i < v.len()
        invariant
            i <= v@.len(),
            all == update_names(package::updates(v@)),
            forall|name: Seq<char>| #[trigger]
                r@.contains(name) <==> all.take(i as int).contains(name),
        decreases v@.len() - i,
    {
        let ghost before = r@;
        r.insert(v[i].name.clone());
        proof {
            let name = v@[i as int].name@;
            assert(all[i as int] == name);
            assert(all.take(i + 1) =~= all.take(i as int).push(name));
        }
        i += 1;
    }
    assert(all.take(all.len() as int) =~= all);
    r
}

/// A package that is on the system, needed or not.
pub open spec fn is_installed(status: PackageStatus) -> bool {
    status == PackageStatus::Installed || status == PackageStatus::Orphan
}

/// Whether a package is on the system, needed or not.
pub fn installed(status: PackageStatus) -> (r: bool)
    ensures
        r == is_installed(status),
{
    match status {
        PackageStatus::Installed => true,
        PackageStatus::Orphan => true,
        PackageStatus::Available => false,
    }
}

/// The row of a package of the distribution.
pub open spec fn package_row(
    p: PackageView,
    has_update: bool,
    names: Map<Seq<char>, Seq<char>>,
) -> PackageDataView {
    ui::plain_row(
        p.name,
        names::humanized(p.name, names),
        p.version,
        p.description,
        p.repository,
        0,
        is_installed(p.status),
        has_update,
    )
}

/// The row of a package of the distribution.
pub fn package_to_ui(package: &Package, has_update: bool, desktop_map: &NameMap) -> (r: PackageData)
    ensures
        r@ == package_row(package@, has_update, desktop_map@),
{
    PackageData::plain(
        package.name.clone(),
        names::humanize_package_name(package.name.as_str(), desktop_map),
        package.version.to_string(),
        package.description.clone(),
        package.repository.clone(),
        0,
        installed(package.status),
        has_update,
    )
}

/// Two versions with an arrow between them.
pub open spec fn change(old: Seq<char>, new: Seq<char>) -> Seq<char> {
    old + " → "@ + new
}

/// Two versions with an arrow between them.
pub fn change_of(old: &str, new: &str) -> (r: String)
    ensures
        r@ == change(old@, new@),
{
    old.to_owned().concat(" → ").concat(new)
}

/// The row of an update: under its new version, described by the change.
pub open spec fn update_row(u: UpdateInfoView) -> PackageDataView {
    ui::plain_row(
        u.name,
        u.name,
        u.new_version,
        change(u.current_version, u.new_version),
        u.repository,
        0,
        true,
        true,
    )
}

/// The row of an update.
pub fn update_to_ui(update: &UpdateInfo) -> (r: PackageData)
    ensures
        r@ == update_row(update@),
{
    PackageData::plain(
        update.name.clone(),
        update.name.clone(),
        update.new_version.to_string(),
        change_of(update.current_version.text.as_str(), update.new_version.text.as_str()),
        update.repository.clone(),
        0,
        true,
        true,
    )
}

/// A readable name from an application ID: its last part, with spaces in place of
/// underscores and hyphens.
pub open spec fn readable_id(id: Seq<char>) -> Seq<char> {
    let part = text::split(id, Sep::At('.')).last();
    text::replace(text::replace(part, seq!['_'], seq![' ']), seq!['-'], seq![' '])
}

/// A readable name from an application ID.
fn readable(id: &[char]) -> (r: Vec<char>)
    ensures
        r@ == readable_id(id@),
{
    let mut parts = text::pieces(id, Sep::At('.'));
    assert(text::texts(parts@).last() == parts@.last()@);
    let part = parts.pop().unwrap();
    let line: Vec<char> = vec!['_'];
    let dash: Vec<char> = vec!['-'];
    let space: Vec<char> = vec![' '];
    assert(line@ =~= seq!['_'] && dash@ =~= seq!['-'] && space@ =~= seq![' ']);
    let r = text::replaced(part.as_slice(), line.as_slice(), space.as_slice());
    text::replaced(r.as_slice(), dash.as_slice(), space.as_slice())
}

/// The row of a Flatpak application: with the name and the summary of the catalogues,
/// whatever the case of its ID, or else with a readable name and no summary.
pub open spec fn flatpak_row(
    p: PackageView,
    has_update: bool,
    apps: Map<Seq<char>, (Seq<char>, Seq<char>)>,
) -> PackageDataView {
    let key = text::lowercase(p.name);
    let (name, summary) = if apps.contains_key(key) {
        apps[key]
    } else {
        (readable_id(p.name), Seq::empty())
    };
    ui::plain_row(
        p.name,
        name,
        p.version,
        summary,
        p.repository,
        1,
        is_installed(p.status),
        has_update,
    )
}

/// The row of a Flatpak application.
pub fn flatpak_to_ui(p: &Package, has_update: bool, apps: &AppMap) -> (r: PackageData)
    ensures
        r@ == flatpak_row(p@, has_update, apps@),
{
    let key = text::to_lowercase(p.name.as_str());
    let (name, summary) = match apps.get(key.as_str()) {
        Some(found) => found,
        None => {
            let id = text::chars_of(p.name.as_str());
            let name = readable(id.as_slice());
            (text::text_of(name.as_slice()), String::new())
        },
    };
    PackageData::plain(
        p.name.clone(),
        name,
        p.version.to_string(),
        summary,
        p.repository.clone(),
        1,
        installed(p.status),
        has_update,
    )
}

/// The rows of the distribution's packages.
pub open spec fn package_rows(
    v: Seq<PackageView>,
    updates: Seq<UpdateInfoView>,
    names: Map<Seq<char>, Seq<char>>,
) -> Seq<PackageDataView> {
    v.map_values(|p: PackageView| package_row(p, update_names(updates).contains(p.name), names))
}

/// The rows of Flatpak applications.
pub open spec fn flatpak_rows(
    v: Seq<PackageView>,
    updates: Seq<UpdateInfoView>,
    apps: Map<Seq<char>, (Seq<char>, Seq<char>)>,
) -> Seq<PackageDataView> {
    v.map_values(|p: PackageView| flatpak_row(p, update_names(updates).contains(p.name), apps))
}

/// The rows of updates.
pub open spec fn update_rows(v: Seq<UpdateInfoView>) -> Seq<PackageDataView> {
    v.map_values(|u: UpdateInfoView| update_row(u))
}

/// The rows of the distribution's packages.
fn packages_to_ui(v: &Vec<Package>, updates: &Vec<UpdateInfo>, names: &NameMap) -> (r: Vec<
    PackageData,
>)
    ensures
        ui::rows(r@) == package_rows(package::packages(v@), package::updates(updates@), names@),
{
    let set = names_of(updates);
    let ghost wanted = package_rows(package::packages(v@), package::updates(updates@), names@);
    let mut r: Vec<PackageData> = Vec::new();
    let mut i: usize = 0;
    while i < v.len()
        invariant
            i <= v@.len(),
            wanted == package_rows(package::packages(v@), package::updates(updates@), names@),
            forall|name: Seq<char>| #[trigger]
                set@.contains(name) <==> update_names(package::updates(updates@)).contains(name),
            ui::rows(r@) == wanted.take(i as int),
        decreases v@.len() - i,
    {
        let ghost before = ui::rows(r@);
        let row = package_to_ui(&v[i], set.contains(v[i].name.as_str()), names);
        r.push(row);
        assert(package::packages(v@)[i as int] == v@[i as int]@);
        assert(wanted[i as int] == row@);
        assert(ui::rows(r@) =~= before.push(row@));
        i += 1;
    }
    assert(wanted.take(wanted.len() as int) =~= wanted);
    r
}

/// The rows of Flatpak applications.
pub fn flatpaks_to_ui(v: &Vec<Package>, updates: &Vec<UpdateInfo>, apps: &AppMap) -> (r: Vec<
    PackageData,
>)
    ensures
        ui::rows(r@) == flatpak_rows(package::packages(v@), package::updates(updates@), apps@),
{
    let set = names_of(updates);
    let ghost wanted = flatpak_rows(package::packages(v@), package::updates(updates@), apps@);
    let mut r: Vec<PackageData> = Vec::new();
    let mut i: usize = 0;
    while i < v.len()
        invariant
            i <= v@.len(),
            wanted == flatpak_rows(package::packages(v@), package::updates(updates@), apps@),
            forall|name: Seq<char>| #[trigger]
                set@.contains(name) <==> update_names(package::updates(updates@)).contains(name),
            ui::rows(r@) == wanted.take(i as int),
        decreases v@.len() - i,
    {
        let ghost before = ui::rows(r@);
        let row = flatpak_to_ui(&v[i], set.contains(v[i].name.as_str()), apps);
        r.push(row);
        assert(package::packages(v@)[i as int] == v@[i as int]@);
        assert(wanted[i as int] == row@);
        assert(ui::rows(r@) =~= before.push(row@));
        i += 1;
    }
    assert(wanted.take(wanted.len() as int) =~= wanted);
    r
}

/// The rows of updates.
fn updates_to_ui(v: &Vec<UpdateInfo>) -> (r: Vec<PackageData>)
    ensures
        ui::rows(r@) == update_rows(package::updates(v@)),
{
    let ghost wanted = update_rows(package::updates(v@));
    let mut r: Vec<PackageData> = Vec::new();
    let mut i: usize = 0;
    while i < v.len()
        invariant
            i <= v@.len(),
            wanted == update_rows(package::updates(v@)),
            ui::rows(r@) == wanted.take(i as int),
        decreases v@.len() - i,
    {
        let ghost before = ui::rows(r@);
        let row = update_to_ui(&v[i]);
        r.push(row);
        assert(package::updates(v@)[i as int] == v@[i as int]@);
        assert(wanted[i as int] == row@);
        assert(ui::rows(r@) =~= before.push(row@));
        i += 1;
    }
    assert(wanted.take(wanted.len() as int) =~= wanted);
    r
}

/// The rows for which an update is on offer.
pub open spec fn with_update(v: Seq<PackageDataView>) -> Seq<PackageDataView>
    decreases v.len(),
{
    if v.len() == 0 {
        Seq::empty()
    } else if v.last().has_update {
        with_update(v.drop_last()).push(v.last())
    } else {
        with_update(v.drop_last())
    }
}

/// The rows for which an update is on offer.
fn outdated(v: &Vec<PackageData>) -> (r: Vec<PackageData>)
    ensures
        ui::rows(r@) == with_update(ui::rows(v@)),
{
    let ghost all = ui::rows(v@);
    let mut r: Vec<PackageData> = Vec::new();
    let mut i: usize = 0;
    assert(all.take(0) =~= Seq::empty());
    assert(ui::rows(r@) =~= Seq::empty());
    while i < v.len()
        invariant
            i <= v@.len(),
            all == ui::rows(v@),
            ui::rows(r@) == with_update(all.take(i as int)),
        decreases v@.len() - i,
    {
        let ghost before = ui::rows(r@);
        assert(all.take(i + 1).drop_last() =~= all.take(i as int));
        assert(all.take(i + 1).last() == v@[i as int]@);
        if v[i].has_update {
            r.push(v[i].clone());
            assert(ui::rows(r@) =~= before.push(v@[i as int]@));
        }
        i += 1;
    }
    assert(all.take(all.len() as int) =~= all);
    r
}

/// What the backends and the tools reported. What could not be had is missing.
#[derive(Debug)]
pub struct Report {
    /// The distribution's packages that are installed.
    pub installed: Option<Vec<Package>>,
    /// The size of the package cache.
    pub cache_size: Option<u64>,
    /// How many packages nothing needs any more.
    pub orphans: Option<usize>,
    /// The Flatpak applications.
    pub flatpaks: Option<Vec<Package>>,
    /// The updates of Flatpak applications.
    pub flatpak_updates: Option<Vec<UpdateInfo>>,
    /// The raw output of a successful update check.
    pub checked: Option<Vec<u8>>,
    /// The plasmoids for which an update is on offer.
    pub plasmoid_updates: Option<Vec<PackageData>>,
    /// The firmware devices.
    pub firmware: Option<Vec<PackageData>>,
}

/// Which questions about updates are asked.
#[derive(Debug, Clone, Copy, PartialEq, Eq, Structural)]
pub struct Questions {
    /// Which Flatpak applications have updates.
    pub flatpak_updates: bool,
    /// Which updates the distribution has.
    pub checked: bool,
    /// Which plasmoids have updates.
    pub plasmoid_updates: bool,
    /// Which firmware devices there are.
    pub firmware: bool,
}

/// The questions that are asked: those about updates only when explicitly requested.
pub open spec fn asked(check_updates: bool) -> Questions {
    Questions {
        flatpak_updates: check_updates,
        checked: check_updates,
        plasmoid_updates: check_updates,
        firmware: check_updates,
    }
}

/// The questions that are asked: those about updates only when explicitly requested.
pub fn questions(check_updates: bool) -> (r: Questions)
    ensures
        r == asked(check_updates),
{
    Questions {
        flatpak_updates: check_updates,
        checked: check_updates,
        plasmoid_updates: check_updates,
        firmware: check_updates,
    }
}

impl Report {
    /// What counts of a report, by the questions that were to be asked: an answer to
    /// another question is as good as missing.
    pub open spec fn answering(self, q: Questions) -> Report {
        Report {
            flatpak_updates: if q.flatpak_updates {
                self.flatpak_updates
            } else {
                None
            },
            checked: if q.checked {
                self.checked
            } else {
                None
            },
            plasmoid_updates: if q.plasmoid_updates {
                self.plasmoid_updates
            } else {
                None
            },
            firmware: if q.firmware {
                self.firmware
            } else {
                None
            },
            ..self
        }
    }

    /// What counts of a report, by the questions that were to be asked.
    pub fn answers(self, q: Questions) -> (r: Report)
        ensures
            r == self.answering(q),
    {
        Report {
            installed: self.installed,
            cache_size: self.cache_size,
            orphans: self.orphans,
            flatpaks: self.flatpaks,
            flatpak_updates: if q.flatpak_updates {
                self.flatpak_updates
            } else {
                None
            },
            checked: if q.checked {
                self.checked
            } else {
                None
            },
            plasmoid_updates: if q.plasmoid_updates {
                self.plasmoid_updates
            } else {
                None
            },
            firmware: if q.firmware {
                self.firmware
            } else {
                None
            },
        }
    }

    /// The plasmoids with updates that were reported.
    pub open spec fn plasmoids(self) -> Seq<PackageDataView> {
        match self.plasmoid_updates {
            Some(v) => ui::rows(v@),
            None => Seq::empty(),
        }
    }

    /// The firmware devices that were reported.
    pub open spec fn devices(self) -> Seq<PackageDataView> {
        match self.firmware {
            Some(v) => ui::rows(v@),
            None => Seq::empty(),
        }
    }

    /// The packages that were reported.
    pub open spec fn packages(self) -> Seq<PackageView> {
        match self.installed {
            Some(v) => package::packages(v@),
            None => Seq::empty(),
        }
    }

    /// The applications that were reported.
    pub open spec fn apps(self) -> Seq<PackageView> {
        match self.flatpaks {
            Some(v) => package::packages(v@),
            None => Seq::empty(),
        }
    }

    /// The updates of applications that were reported.
    pub open spec fn app_updates(self) -> Seq<UpdateInfoView> {
        match self.flatpak_updates {
            Some(v) => package::updates(v@),
            None => Seq::empty(),
        }
    }

    /// The number of packages that nothing needs any more.
    pub open spec fn orphan_count(self) -> usize {
        match self.orphans {
            Some(n) => n,
            None => 0,
        }
    }

    /// The size of the package cache.
    pub open spec fn cache(self) -> u64 {
        match self.cache_size {
            Some(n) => n,
            None => 0,
        }
    }
}

/// The figures of the overview.
pub open spec fn figures(report: Report, updates: nat) -> StatsDataView {
    StatsDataView {
        pacman_count: report.packages().len() as i32,
        flatpak_count: report.apps().len() as i32,
        orphan_count: report.orphan_count() as i32,
        update_count: updates as i32,
        cache_size: utils::size_text(report.cache()),
    }
}

/// The lists of a report.
pub open spec fn loaded(
    report: Report,
    names: Map<Seq<char>, Seq<char>>,
    apps: Map<Seq<char>, (Seq<char>, Seq<char>)>,
) -> UiMessageView {
    let updates = checked_updates(report.checked);
    let firmware = report.devices();
    UiMessageView::PackagesLoaded {
        installed: package_rows(report.packages(), updates, names),
        updates: update_rows(updates) + report.plasmoids() + with_update(firmware),
        flatpak: flatpak_rows(report.apps(), report.app_updates(), apps),
        firmware,
        stats: figures(
            report,
            updates.len() + report.app_updates().len() + report.plasmoids().len()
                + with_update(firmware).len(),
        ),
    }
}

/// A list, or an empty one where there is none.
pub fn or_no_packages(v: Option<Vec<Package>>) -> (r: Vec<Package>)
    ensures
        package::packages(r@) == (match v {
            Some(v) => package::packages(v@),
            None => Seq::empty(),
        }),
{
    match v {
        Some(v) => v,
        None => {
            let r: Vec<Package> = Vec::new();
            assert(package::packages(r@) =~= Seq::empty());
            r
        },
    }
}

/// A list, or an empty one where there is none.
pub fn or_no_updates(v: Option<Vec<UpdateInfo>>) -> (r: Vec<UpdateInfo>)
    ensures
        package::updates(r@) == (match v {
            Some(v) => package::updates(v@),
            None => Seq::empty(),
        }),
{
    match v {
        Some(v) => v,
        None => {
            let r: Vec<UpdateInfo> = Vec::new();
            assert(package::updates(r@) =~= Seq::empty());
            r
        },
    }
}

/// A list, or an empty one where there is none.
pub fn or_no_rows(v: Option<Vec<PackageData>>) -> (r: Vec<PackageData>)
    ensures
        ui::rows(r@) == (match v {
            Some(v) => ui::rows(v@),
            None => Seq::empty(),
        }),
{
    match v {
        Some(v) => v,
        None => {
            let r: Vec<PackageData> = Vec::new();
            assert(ui::rows(r@) =~= Seq::empty());
            r
        },
    }
}

/// The lists of a report: the packages, all updates (those of the distribution, of
/// plasmoids and of firmware), the applications, the firmware and the figures. What the
/// report says of updates counts only where they were to be checked.
pub fn load_packages_async(
    report: Report,
    check_updates: bool,
    desktop_map: &NameMap,
    apps: &AppMap,
) -> (r: UiMessage)
    ensures
        r@ == loaded(report.answering(asked(check_updates)), desktop_map@, apps@),
{
    let report = report.answers(questions(check_updates));
    let updates = updates_of(&report.checked);
    let packages = or_no_packages(report.installed);
    let flatpaks = or_no_packages(report.flatpaks);
    let flatpak_updates = or_no_updates(report.flatpak_updates);
    let installed_ui = packages_to_ui(&packages, &updates, desktop_map);
    let flatpak_ui = flatpaks_to_ui(&flatpaks, &flatpak_updates, apps);
    let mut all_updates = updates_to_ui(&updates);
    let mut plasmoids = or_no_rows(report.plasmoid_updates);
    let plasmoid_count: usize = plasmoids.len();
    let firmware = or_no_rows(report.firmware);
    let mut firmware_updates = outdated(&firmware);
    let firmware_count: usize = firmware_updates.len();
    let ghost u = ui::rows(all_updates@);
    let ghost p = ui::rows(plasmoids@);
    let ghost f = ui::rows(firmware_updates@);
    all_updates.append(&mut plasmoids);
    assert(ui::rows(all_updates@) =~= u + p);
    all_updates.append(&mut firmware_updates);
    assert(ui::rows(all_updates@) =~= u + p + f);
    let total: u128 = updates.len() as u128 + flatpak_updates.len() as u128 + plasmoid_count as u128
        + firmware_count as u128;
    assert(package::packages(packages@).len() == packages@.len());
    assert(package::packages(flatpaks@).len() == flatpaks@.len());
    assert(package::updates(updates@).len() == updates@.len());
    assert(package::updates(flatpak_updates@).len() == flatpak_updates@.len());
    let stats = StatsData {
        pacman_count: packages.len() as i32,
        flatpak_count: flatpaks.len() as i32,
        orphan_count: (match report.orphans {
            Some(n) => n,
            None => 0,
        }) as i32,
        update_count: total as i32,
        cache_size: utils::format_size(
            match report.cache_size {
                Some(n) => n,
                None => 0,
            },
        ),
    };
    UiMessage::PackagesLoaded {
        installed: installed_ui,
        updates: all_updates,
        flatpak: flatpak_ui,
        firmware,
        stats,
    }
}

/// The row of a package that a search found.
pub open spec fn found_package(
    p: SearchResultView,
    names: Map<Seq<char>, Seq<char>>,
) -> PackageDataView {
    ui::plain_row(
        p.name,
        names::humanized(p.name, names),
        p.version,
        p.description,
        p.repository,
        0,
        p.installed,
        false,
    )
}

/// The row of an application that a search found.
pub open spec fn found_app(p: SearchResultView) -> PackageDataView {
    ui::plain_row(
        p.name,
        p.name,
        p.version,
        p.description,
        p.repository,
        1,
        p.installed,
        false,
    )
}

/// The first hundred rows.
pub open spec fn limited(v: Seq<PackageDataView>) -> Seq<PackageDataView> {
    if v.len() > 100 {
        v.take(100)
    } else {
        v
    }
}

/// The rows of a search: packages, then applications, a hundred at most.
pub open spec fn search_rows(
    pacman: Seq<SearchResultView>,
    flatpak: Seq<SearchResultView>,
    names: Map<Seq<char>, Seq<char>>,
) -> Seq<PackageDataView> {
    limited(
        pacman.map_values(|p: SearchResultView| found_package(p, names)) + flatpak.map_values(
            |p: SearchResultView| found_app(p),
        ),
    )
}

/// The results of a search in both backends. A search that failed found nothing.
pub fn search_packages_async(
    pacman: &Vec<SearchResult>,
    flatpak: &Vec<SearchResult>,
    desktop_map: &NameMap,
) -> (r: UiMessage)
    ensures
        r@ == UiMessageView::SearchResults(
            search_rows(package::results(pacman@), package::results(flatpak@), desktop_map@),
        ),
{
    let ghost first = package::results(pacman@).map_values(
        |p: SearchResultView| found_package(p, desktop_map@),
    );
    let ghost second = package::results(flatpak@).map_values(|p: SearchResultView| found_app(p));
    let ghost wanted = first + second;
    let mut r: Vec<PackageData> = Vec::new();
    let mut i: usize = 0;
    while i < pacman.len() && i < 100
        invariant
            i <= pacman@.len(),
            i <= 100,
            first == package::results(pacman@).map_values(
                |p: SearchResultView| found_package(p, desktop_map@),
            ),
            wanted == first + second,
            ui::rows(r@) == wanted.take(i as int),
        decreases pacman@.len() - i,
    {
        let ghost before = ui::rows(r@);
        let p = &pacman[i];
        let row = PackageData::plain(
            p.name.clone(),
            names::humanize_package_name(p.name.as_str(), desktop_map),
            p.version.to_string(),
            p.description.clone(),
            p.repository.clone(),
            0,
            p.installed,
            false,
        );
        r.push(row);
        assert(package::results(pacman@)[i as int] == pacman@[i as int]@);
        assert(wanted[i as int] == row@);
        assert(ui::rows(r@) =~= before.push(row@));
        i += 1;
    }
    let n: usize = pacman.len();
    let mut k: usize = 0;
    while k < flatpak.len() && i < 100
        invariant
            k <= flatpak@.len(),
            i <= 100,
            n == pacman@.len(),
            n == first.len(),
            i == n + k || (i == 100 && k == 0),
            second == package::results(flatpak@).map_values(|p: SearchResultView| found_app(p)),
            wanted == first + second,
            ui::rows(r@) == wanted.take(i as int),
            i <= wanted.len(),
        decreases flatpak@.len() - k,
    {
        let ghost before = ui::rows(r@);
        let p = &flatpak[k];
        let row = PackageData::plain(
            p.name.clone(),
            p.name.clone(),
            p.version.to_string(),
            p.description.clone(),
            p.repository.clone(),
            1,
            p.installed,
            false,
        );
        r.push(row);
        assert(package::results(flatpak@)[k as int] == flatpak@[k as int]@);
        assert(wanted[i as int] == row@);
        assert(ui::rows(r@) =~= before.push(row@));
        i += 1;
        k += 1;
    }
    assert(wanted.take(wanted.len() as int) =~= wanted);
    assert(wanted.len() == n + flatpak@.len());
    assert(ui::rows(r@) =~= limited(wanted));
    UiMessage::SearchResults(r)
}

/// The results of a search where a backend is missing: none.
pub fn no_results() -> (r: UiMessage)
    ensures
        r@ == UiMessageView::SearchResults(Seq::empty()),
{
    let none: Vec<PackageData> = Vec::new();
    assert(ui::rows(none@) =~= Seq::empty());
    UiMessage::SearchResults(none)
}

/// The pieces of a line between its first tabs: at most four, of which the last holds the
/// rest.
pub open spec fn fields(line: Seq<char>) -> Seq<Seq<char>> {
    let parts = text::split(line, Sep::At('\t'));
    if parts.len() <= 4 {
        parts
    } else {
        parts.take(3).push(text::join(parts.skip(3), seq!['\t']))
    }
}

/// The row of a line `repository name version description`, with tabs between, where it
/// is of the repository.
pub open spec fn repo_row(
    line: Seq<char>,
    repo: Seq<char>,
    installed: Seq<Seq<char>>,
    names: Map<Seq<char>, Seq<char>>,
) -> Option<PackageDataView> {
    let f = fields(line);
    if f.len() >= 4 && f[0] == repo {
        Some(
            ui::plain_row(
                f[1],
                names::humanized(f[1], names),
                f[2],
                f[3],
                repo,
                0,
                installed.contains(f[1]),
                false,
            ),
        )
    } else {
        None
    }
}

/// The rows of the lines of a repository.
pub open spec fn repo_rows(
    ls: Seq<Seq<char>>,
    repo: Seq<char>,
    installed: Seq<Seq<char>>,
    names: Map<Seq<char>, Seq<char>>,
) -> Seq<PackageDataView>
    decreases ls.len(),
{
    if ls.len() == 0 {
        Seq::empty()
    } else {
        let before = repo_rows(ls.drop_last(), repo, installed, names);
        match repo_row(ls.last(), repo, installed, names) {
            Some(row) => before.push(row),
            None => before,
        }
    }
}

/// The lines of a raw output, where there is one.
pub open spec fn output_lines(output: Option<Vec<u8>>) -> Seq<Seq<char>> {
    match output {
        Some(b) => text::lines(bytes::lossy_text(b@)),
        None => Seq::empty(),
    }
}

/// The lines of a raw output, where there is one.
fn lines_of_output(output: &Option<Vec<u8>>) -> (r: Vec<Vec<char>>)
    ensures
        text::texts(r@) == output_lines(*output),
{
    match output {
        Some(b) => {
            let t = bytes::shown(b.as_slice());
            text::lines_of(t.as_slice())
        },
        None => {
            let r: Vec<Vec<char>> = Vec::new();
            assert(text::texts(r@) =~= Seq::empty());
            r
        },
    }
}

/// Lines, to look up.
fn set_of(ls: &Vec<Vec<char>>) -> (r: StringHashSet)
    ensures
        forall|name: Seq<char>| #[trigger]
            r@.contains(name) <==> text::texts(ls@).contains(name),
{
    let ghost all = text::texts(ls@);
    let mut r = StringHashSet::new();
    let mut i: usize = 0;
    assert(all.take(0) =~= Seq::empty());
    while i < ls.len()
        invariant
            i <= ls@.len(),
            all == text::texts(ls@),
            forall|name: Seq<char>| #[trigger]
                r@.contains(name) <==> all.take(i as int).contains(name),
        decreases ls@.len() - i,
    {
        r.insert(text::text_of(ls[i].as_slice()));
        proof {
            let name = ls@[i as int]@;
            assert(all[i as int] == name);
            assert(all.take(i + 1) =~= all.take(i as int).push(name));
        }
        i += 1;
    }
    assert(all.take(all.len() as int) =~= all);
    r
}

/// The pieces of a line between its first tabs.
fn fields_of(line: &[char]) -> (r: Vec<Vec<char>>)
    ensures
        text::texts(r@) == fields(line@),
{
    let parts = text::pieces(line, Sep::At('\t'));
    let ghost all = text::texts(parts@);
    let n: usize = parts.len();
    if n <= 4 {
        parts
    } else {
        let tab: Vec<char> = vec!['\t'];
        assert(tab@ =~= seq!['\t']);
        let tail = text::joined(&parts, 3, n, tab.as_slice());
        assert(all.subrange(3, n as int) =~= all.skip(3));
        let mut r: Vec<Vec<char>> = Vec::new();
        r.push(text::copy(parts[0].as_slice()));
        r.push(text::copy(parts[1].as_slice()));
        r.push(text::copy(parts[2].as_slice()));
        r.push(tail);
        assert(text::texts(r@) =~= all.take(3).push(tail@));
        r
    }
}

/// The packages of a repository, given the names of the installed packages and the lines
/// of the listing of the repositories.
pub fn list_repo(
    names: &Vec<Vec<char>>,
    ls: &Vec<Vec<char>>,
    repo: &str,
    desktop_map: &NameMap,
) -> (r: Vec<PackageData>)
    ensures
        ui::rows(r@) == repo_rows(text::texts(ls@), repo@, text::texts(names@), desktop_map@),
{
    let set = set_of(names);
    let ghost all = text::texts(ls@);
    let ghost on_system = text::texts(names@);
    let wanted = text::chars_of(repo);
    let mut r: Vec<PackageData> = Vec::new();
    let mut i: usize = 0;
    assert(all.take(0) =~= Seq::empty());
    assert(ui::rows(r@) =~= Seq::empty());
    while i < ls.len()
        invariant
            i <= ls@.len(),
            all == text::texts(ls@),
            wanted@ == repo@,
            forall|name: Seq<char>| #[trigger] set@.contains(name) <==> on_system.contains(name),
            ui::rows(r@) == repo_rows(all.take(i as int), repo@, on_system, desktop_map@),
        decreases ls@.len() - i,
    {
        let ghost before = ui::rows(r@);
        assert(all.take(i + 1).drop_last() =~= all.take(i as int));
        assert(all.take(i + 1).last() == ls@[i as int]@);
        let f = fields_of(ls[i].as_slice());
        let ghost parts = text::texts(f@);
        if f.len() >= 4 {
            assert(parts[0] == f@[0]@ && parts[1] == f@[1]@ && parts[2] == f@[2]@ && parts[3]
                == f@[3]@);
            if text::same(f[0].as_slice(), wanted.as_slice()) {
                let name = text::text_of(f[1].as_slice());
                let on = set.contains(name.as_str());
                let human = names::humanize_package_name(name.as_str(), desktop_map);
                let row = PackageData::plain(
                    name,
                    human,
                    text::text_of(f[2].as_slice()),
                    text::text_of(f[3].as_slice()),
                    repo.to_owned(),
                    0,
                    on,
                    false,
                );
                r.push(row);
                assert(ui::rows(r@) =~= before.push(row@));
            }
        }
        i += 1;
    }
    assert(all.take(all.len() as int) =~= all);
    r
}

/// The packages of a repository, given the raw output of the listing of installed
/// packages and of that of the repositories, where they could be had.
pub fn load_repo_packages(
    installed: &Option<Vec<u8>>,
    listing: &Option<Vec<u8>>,
    repo: &str,
    desktop_map: &NameMap,
) -> (r: UiMessage)
    ensures
        r@ == UiMessageView::RepoPackages(
            repo_rows(output_lines(*listing), repo@, output_lines(*installed), desktop_map@),
        ),
{
    let names = lines_of_output(installed);
    let ls = lines_of_output(listing);
    UiMessage::RepoPackages(list_repo(&names, &ls, repo, desktop_map))
}

/// A search shows a hundred rows at most, and all of them where there are no more.
pub proof fn search_is_limited(
    pacman: Seq<SearchResultView>,
    flatpak: Seq<SearchResultView>,
    names: Map<Seq<char>, Seq<char>>,
)
    ensures
        search_rows(pacman, flatpak, names).len() == (if pacman.len() + flatpak.len() > 100 {
            100
        } else {
            pacman.len() + flatpak.len()
        }),
{
}

/// A package is shown with an update exactly where an update of its name is announced.
pub proof fn updates_are_shown(
    v: Seq<PackageView>,
    updates: Seq<UpdateInfoView>,
    names: Map<Seq<char>, Seq<char>>,
    i: int,
)
    requires
        0 <= i < v.len(),
    ensures
        package_rows(v, updates, names).len() == v.len(),
        package_rows(v, updates, names)[i].name == v[i].name,
        package_rows(v, updates, names)[i].has_update <==> exists|k: int|
            0 <= k < updates.len() && (#[trigger] updates[k]).name == v[i].name,
{
    let all = update_names(updates);
    if all.contains(v[i].name) {
        let k = choose|k: int| 0 <= k < all.len() && all[k] == v[i].name;
        assert(updates[k].name == v[i].name);
    }
    if exists|k: int| 0 <= k < updates.len() && (#[trigger] updates[k]).name == v[i].name {
        let k = choose|k: int| 0 <= k < updates.len() && (#[trigger] updates[k]).name == v[i].name;
        assert(all[k] == v[i].name);
    }
}

/// An application is shown with an update exactly where an update of its name is reported.
pub proof fn app_updates_are_shown(
    v: Seq<PackageView>,
    updates: Seq<UpdateInfoView>,
    apps: Map<Seq<char>, (Seq<char>, Seq<char>)>,
    i: int,
)
    requires
        0 <= i < v.len(),
    ensures
        flatpak_rows(v, updates, apps).len() == v.len(),
        flatpak_rows(v, updates, apps)[i].name == v[i].name,
        flatpak_rows(v, updates, apps)[i].has_update <==> exists|k: int|
            0 <= k < updates.len() && (#[trigger] updates[k]).name == v[i].name,
{
    let all = update_names(updates);
    if all.contains(v[i].name) {
        let k = choose|k: int| 0 <= k < all.len() && all[k] == v[i].name;
        assert(updates[k].name == v[i].name);
    }
    if exists|k: int| 0 <= k < updates.len() && (#[trigger] updates[k]).name == v[i].name {
        let k = choose|k: int| 0 <= k < updates.len() && (#[trigger] updates[k]).name == v[i].name;
        assert(all[k] == v[i].name);
    }
}

/// Lists without updates: no package and no application is shown with one, the list of
/// updates and that of firmware are empty, and the figure is zero.
pub open spec fn shows_no_update(m: UiMessageView) -> bool {
    m matches UiMessageView::PackagesLoaded { installed, updates, flatpak, firmware, stats } && {
        &&& forall|i: int| 0 <= i < installed.len() ==> !(#[trigger] installed[i]).has_update
        &&& forall|i: int| 0 <= i < flatpak.len() ==> !(#[trigger] flatpak[i]).has_update
        &&& updates.len() == 0
        &&& firmware.len() == 0
        &&& stats.update_count == 0
    }
}

/// A report that says nothing of updates: no output of a check, no updates of applications
/// or plasmoids, and no firmware.
pub open spec fn is_silent(report: Report) -> bool {
    &&& report.checked is None
    &&& report.app_updates().len() == 0
    &&& report.plasmoids().len() == 0
    &&& report.devices().len() == 0
}

/// Where a report says nothing of updates, none is shown.
pub proof fn silence_shows_no_update(
    report: Report,
    names: Map<Seq<char>, Seq<char>>,
    apps: Map<Seq<char>, (Seq<char>, Seq<char>)>,
)
    requires
        is_silent(report),
    ensures
        shows_no_update(loaded(report, names, apps)),
{
}

/// Updates are only checked for when explicitly requested: without a request no question
/// about them is asked, and none is shown, whatever a report says.
pub proof fn no_update_without_request(
    report: Report,
    names: Map<Seq<char>, Seq<char>>,
    apps: Map<Seq<char>, (Seq<char>, Seq<char>)>,
)
    ensures
        ({
            let q = asked(false);
            !q.flatpak_updates && !q.checked && !q.plasmoid_updates && !q.firmware
        }),
        shows_no_update(loaded(report.answering(asked(false)), names, apps)),
{
    silence_shows_no_update(report.answering(asked(false)), names, apps);
}

/// What was requested is shown as it was reported.
pub proof fn requested_updates_count(report: Report)
    ensures
        report.answering(asked(true)) == report,
{
}

/// A line `name old -> new` of an update check announces the update of a package, and a
/// line `name new` one from an unknown version; a line with a single word announces none.
pub proof fn updates_are_announced(
    name: Seq<char>,
    old: Seq<char>,
    arrow: Seq<char>,
    new: Seq<char>,
)
    requires
        name.len() > 0 && old.len() > 0 && arrow.len() > 0 && new.len() > 0,
        forall|i: int| 0 <= i < name.len() ==> !text::is_space(#[trigger] name[i]),
        forall|i: int| 0 <= i < old.len() ==> !text::is_space(#[trigger] old[i]),
        forall|i: int| 0 <= i < arrow.len() ==> !text::is_space(#[trigger] arrow[i]),
        forall|i: int| 0 <= i < new.len() ==> !text::is_space(#[trigger] new[i]),
    ensures
        announced(name.push(' ') + old.push(' ') + arrow.push(' ') + new) == Some(
            UpdateInfoView {
                name,
                current_version: old,
                new_version: new,
                backend: PackageBackend::Pacman,
                repository: Seq::empty(),
                download_size: 0,
            },
        ),
        announced(name.push(' ') + new) == Some(
            UpdateInfoView {
                name,
                current_version: Seq::empty(),
                new_version: new,
                backend: PackageBackend::Pacman,
                repository: Seq::empty(),
                download_size: 0,
            },
        ),
        announced(name) is None,
{
    let one = name;
    text::words_are_told_apart(one, ' ', name);
    text::words_are_told_apart(one, ' ', old);
    text::words_are_told_apart(one, ' ', new);
    let two = one.push(' ') + old;
    text::words_are_told_apart(two, ' ', arrow);
    let three = two.push(' ') + arrow;
    text::words_are_told_apart(three, ' ', new);
    assert(three.push(' ') + new =~= name.push(' ') + old.push(' ') + arrow.push(' ') + new);
    assert(text::words(three.push(' ') + new) =~= seq![name, old, arrow, new]);
    assert(text::words(name.push(' ') + new) =~= seq![name, new]);
}

/// Every line of an update check counts, in order: each with two words or more announces
/// one update.
pub proof fn every_line_counts(ls: Seq<Seq<char>>)
    ensures
        announcements(ls) == ls.filter(|l: Seq<char>| announced(l) is Some).map_values(
            |l: Seq<char>| announced(l).unwrap(),
        ),
        forall|l: Seq<char>| (#[trigger] announced(l)) is Some <==> text::words(l).len() >= 2,
    decreases ls.len(),
{
    reveal(Seq::filter);
    if ls.len() > 0 {
        every_line_counts(ls.drop_last());
    }
    assert(announcements(ls) =~= ls.filter(|l: Seq<char>| announced(l) is Some).map_values(
        |l: Seq<char>| announced(l).unwrap(),
    ));
}

/// What is shown of a package, an application and an update.
pub proof fn rows_say_what_is_known(
    p: PackageView,
    u: UpdateInfoView,
    has_update: bool,
    names: Map<Seq<char>, Seq<char>>,
    apps: Map<Seq<char>, (Seq<char>, Seq<char>)>,
)
    ensures
        ({
            let row = package_row(p, has_update, names);
            &&& row.name == p.name
            &&& row.display_name == names::humanized(p.name, names)
            &&& row.version == p.version
            &&& row.description == p.description
            &&& row.repository == p.repository
            &&& row.backend == 0
            &&& row.installed <==> p.status == PackageStatus::Installed || p.status
                == PackageStatus::Orphan
            &&& row.has_update == has_update
            &&& !row.selected
        }),
        ({
            let row = flatpak_row(p, has_update, apps);
            let key = text::lowercase(p.name);
            &&& row.name == p.name
            &&& apps.contains_key(key) ==> row.display_name == apps[key].0 && row.description
                == apps[key].1
            &&& !apps.contains_key(key) ==> row.display_name == readable_id(p.name)
                && row.description.len() == 0
            &&& row.version == p.version
            &&& row.repository == p.repository
            &&& row.backend == 1
            &&& row.installed <==> p.status == PackageStatus::Installed || p.status
                == PackageStatus::Orphan
            &&& row.has_update == has_update
            &&& !row.selected
        }),
        ({
            let row = update_row(u);
            &&& row.name == u.name
            &&& row.display_name == u.name
            &&& row.version == u.new_version
            &&& row.description == u.current_version + " → "@ + u.new_version
            &&& row.repository == u.repository
            &&& row.backend == 0
            &&& row.installed
            &&& row.has_update
        }),
{
}

/// The name that an application is shown under, where no catalogue names it, is the last
/// part of its ID, with blanks in place of underlines and hyphens.
pub proof fn ids_are_readable(a: Seq<char>, part: Seq<char>)
    requires
        !part.contains('.'),
    ensures
        readable_id(a.push('.') + part) == readable_id(part),
        readable_id(part).len() == part.len(),
        forall|i: int|
            0 <= i < part.len() ==> #[trigger] readable_id(part)[i] == (if part[i] == '_' || part[i]
                == '-' {
                ' '
            } else {
                part[i]
            }),
{
    text::split_appended(a, '.', part);
    assert forall|i: int| 0 <= i < part.len() implies !Sep::At('.').splits(#[trigger] part[i]) by {
        assert(part.contains(part[i]));
    }
    text::unsplit(part, Sep::At('.'));
    text::characters_are_replaced(part, '_', ' ');
    text::characters_are_replaced(text::replace(part, seq!['_'], seq![' ']), '-', ' ');
}

/// The rows with an update are those that say so, in order.
pub proof fn updates_are_picked(v: Seq<PackageDataView>)
    ensures
        with_update(v) == v.filter(|p: PackageDataView| p.has_update),
    decreases v.len(),
{
    reveal(Seq::filter);
    if v.len() > 0 {
        updates_are_picked(v.drop_last());
    }
}

/// What is loaded: every package and application that was reported, in order; as updates
/// all that were announced, then the plasmoids and the firmware that have one; the firmware
/// that was found; and figures that count the packages, the applications, the orphans and
/// all updates.
pub proof fn everything_reported_is_loaded(
    report: Report,
    names: Map<Seq<char>, Seq<char>>,
    apps: Map<Seq<char>, (Seq<char>, Seq<char>)>,
)
    ensures
        ({
            let announced = checked_updates(report.checked);
            let outdated = report.devices().filter(|p: PackageDataView| p.has_update);
            let total = announced.len() + report.app_updates().len() + report.plasmoids().len()
                + outdated.len();
            loaded(report, names, apps) matches UiMessageView::PackagesLoaded {
                installed,
                updates,
                flatpak,
                firmware,
                stats,
            } && {
                &&& installed.len() == report.packages().len()
                &&& forall|i: int|
                    0 <= i < installed.len() ==> (#[trigger] installed[i]).name
                        == report.packages()[i].name
                &&& flatpak.len() == report.apps().len()
                &&& forall|i: int|
                    0 <= i < flatpak.len() ==> (#[trigger] flatpak[i]).name == report.apps()[i].name
                &&& updates.len() == announced.len() + report.plasmoids().len() + outdated.len()
                &&& forall|i: int|
                    0 <= i < announced.len() ==> (#[trigger] updates[i]).name == announced[i].name
                        && updates[i].version == announced[i].new_version
                &&& updates.subrange(
                    announced.len() as int,
                    (announced.len() + report.plasmoids().len()) as int,
                ) == report.plasmoids()
                &&& updates.skip((announced.len() + report.plasmoids().len()) as int) == outdated
                &&& firmware == report.devices()
                &&& total <= i32::MAX ==> stats.update_count == total
                &&& report.packages().len() <= i32::MAX ==> stats.pacman_count
                    == report.packages().len()
                &&& report.apps().len() <= i32::MAX ==> stats.flatpak_count == report.apps().len()
                &&& report.orphans matches Some(n) ==> (n <= i32::MAX ==> stats.orphan_count == n)
                &&& report.orphans is None ==> stats.orphan_count == 0
                &&& report.cache_size matches Some(n) ==> stats.cache_size == utils::size_text(n)
                &&& report.cache_size is None ==> stats.cache_size == utils::size_text(0)
            }
        }),
{
    let announced = checked_updates(report.checked);
    updates_are_picked(report.devices());
    let outdated = report.devices().filter(|p: PackageDataView| p.has_update);
    let rows = update_rows(announced) + report.plasmoids() + outdated;
    assert(rows.subrange(
        announced.len() as int,
        (announced.len() + report.plasmoids().len()) as int,
    ) =~= report.plasmoids());
    assert(rows.skip((announced.len() + report.plasmoids().len()) as int) =~= outdated);
}

/// The rows of a search are the packages that were found, then the applications, each with
/// what is known of it, as far as there is room.
pub proof fn search_shows_what_was_found(
    pacman: Seq<SearchResultView>,
    flatpak: Seq<SearchResultView>,
    names: Map<Seq<char>, Seq<char>>,
    i: int,
)
    requires
        0 <= i < pacman.len() + flatpak.len(),
        i < 100,
    ensures
        i < search_rows(pacman, flatpak, names).len(),
        ({
            let row = search_rows(pacman, flatpak, names)[i];
            let p = if i < pacman.len() {
                pacman[i]
            } else {
                flatpak[i - pacman.len()]
            };
            &&& row.name == p.name
            &&& row.version == p.version
            &&& row.description == p.description
            &&& row.repository == p.repository
            &&& row.installed == p.installed
            &&& !row.has_update
            &&& i < pacman.len() ==> row.backend == 0 && row.display_name == names::humanized(
                p.name,
                names,
            )
            &&& i >= pacman.len() ==> row.backend == 1 && row.display_name == p.name
        }),
{
}

/// A line of the listing of repositories, with the repository, the name, the version and
/// the description between tabulators, is a row of that repository and of no other. It
/// counts as installed where its name is among those that are.
pub proof fn listings_are_read(
    of: Seq<char>,
    name: Seq<char>,
    version: Seq<char>,
    description: Seq<char>,
    repo: Seq<char>,
    installed: Seq<Seq<char>>,
    names: Map<Seq<char>, Seq<char>>,
)
    requires
        !of.contains('\t'),
        !name.contains('\t'),
        !version.contains('\t'),
        !description.contains('\t'),
    ensures
        ({
            let line = of.push('\t') + name.push('\t') + version.push('\t') + description;
            let row = repo_row(line, repo, installed, names);
            &&& row is Some <==> of == repo
            &&& row matches Some(p) ==> {
                &&& p.name == name
                &&& p.display_name == names::humanized(name, names)
                &&& p.version == version
                &&& p.description == description
                &&& p.repository == repo
                &&& p.backend == 0
                &&& p.installed <==> exists|k: int|
                    0 <= k < installed.len() && #[trigger] installed[k] == name
                &&& !p.has_update
            }
        }),
{
    let line = of.push('\t') + name.push('\t') + version.push('\t') + description;
    assert forall|i: int| 0 <= i < of.len() implies !Sep::At('\t').splits(#[trigger] of[i]) by {
        assert(of.contains(of[i]));
    }
    text::unsplit(of, Sep::At('\t'));
    text::split_appended(of, '\t', name);
    let two = of.push('\t') + name;
    text::split_appended(two, '\t', version);
    let three = two.push('\t') + version;
    text::split_appended(three, '\t', description);
    assert(three.push('\t') + description =~= line);
    assert(text::split(line, Sep::At('\t')) =~= seq![of, name, version, description]);
    if installed.contains(name) {
        let k = choose|k: int| 0 <= k < installed.len() && installed[k] == name;
        assert(installed[k] == name);
    }
}

/// Every line of the listing counts, in order.
pub proof fn whole_listings_are_read(
    ls: Seq<Seq<char>>,
    repo: Seq<char>,
    installed: Seq<Seq<char>>,
    names: Map<Seq<char>, Seq<char>>,
)
    ensures
        repo_rows(ls, repo, installed, names) == ls.filter(
            |l: Seq<char>| repo_row(l, repo, installed, names) is Some,
        ).map_values(|l: Seq<char>| repo_row(l, repo, installed, names).unwrap()),
    decreases ls.len(),
{
    reveal(Seq::filter);
    if ls.len() > 0 {
        whole_listings_are_read(ls.drop_last(), repo, installed, names);
    }
    assert(repo_rows(ls, repo, installed, names) =~= ls.filter(
        |l: Seq<char>| repo_row(l, repo, installed, names) is Some,
    ).map_values(|l: Seq<char>| repo_row(l, repo, installed, names).unwrap()));
}

/// A report holds what was reported, and nothing where nothing was.
pub proof fn reports_hold_what_was_reported(report: Report)
    ensures
        report.installed matches Some(v) ==> report.packages() == v@.map_values(|p: Package| p@),
        report.installed is None ==> report.packages().len() == 0,
        report.flatpaks matches Some(v) ==> report.apps() == v@.map_values(|p: Package| p@),
        report.flatpaks is None ==> report.apps().len() == 0,
        report.flatpak_updates matches Some(v) ==> report.app_updates() == v@.map_values(
            |u: UpdateInfo| u@,
        ),
        report.flatpak_updates is None ==> report.app_updates().len() == 0,
        report.plasmoid_updates matches Some(v) ==> report.plasmoids() == v@.map_values(
            |p: PackageData| p@,
        ),
        report.plasmoid_updates is None ==> report.plasmoids().len() == 0,
        report.firmware matches Some(v) ==> report.devices() == v@.map_values(|p: PackageData| p@),
        report.firmware is None ==> report.devices().len() == 0,
{
    if let Some(v) = report.installed {
        assert(report.packages() =~= v@.map_values(|p: Package| p@));
    }
    if let Some(v) = report.flatpaks {
        assert(report.apps() =~= v@.map_values(|p: Package| p@));
    }
    if let Some(v) = report.flatpak_updates {
        assert(report.app_updates() =~= v@.map_values(|u: UpdateInfo| u@));
    }
    if let Some(v) = report.plasmoid_updates {
        assert(report.plasmoids() =~= v@.map_values(|p: PackageData| p@));
    }
    if let Some(v) = report.firmware {
        assert(report.devices() =~= v@.map_values(|p: PackageData| p@));
    }
}

/// What is asked for is reported as it is, what is not asked for is not reported, and what
/// is always asked for always is. Everything about updates is asked for on request.
pub proof fn questions_are_answered(report: Report, q: Questions, check_updates: bool)
    ensures
        ({
            let r = report.answering(q);
            &&& r.installed == report.installed
            &&& r.cache_size == report.cache_size
            &&& r.orphans == report.orphans
            &&& r.flatpaks == report.flatpaks
            &&& q.flatpak_updates ==> r.flatpak_updates == report.flatpak_updates
            &&& !q.flatpak_updates ==> r.flatpak_updates is None
            &&& q.checked ==> r.checked == report.checked
            &&& !q.checked ==> r.checked is None
            &&& q.plasmoid_updates ==> r.plasmoid_updates == report.plasmoid_updates
            &&& !q.plasmoid_updates ==> r.plasmoid_updates is None
            &&& q.firmware ==> r.firmware == report.firmware
            &&& !q.firmware ==> r.firmware is None
        }),
        asked(check_updates).flatpak_updates == check_updates,
        asked(check_updates).checked == check_updates,
        asked(check_updates).plasmoid_updates == check_updates,
        asked(check_updates).firmware == check_updates,
{
}

/// Every line of the output of an update check announces its update, and where there is no
/// output nothing is announced.
pub proof fn checks_announce_every_line(output: Vec<u8>, v: Seq<Seq<char>>)
    requires
        v.len() > 0,
        forall|i: int|
            0 <= i < v.len() ==> !(#[trigger] v[i]).contains('\n') && (v[i].len() > 0 ==> v[i].last()
                != '\r'),
        bytes::lossy_text(output@) == text::join(v, seq!['\n']).push('\n'),
    ensures
        checked_updates(Some(output)) == announcements(v),
        checked_updates(None).len() == 0,
{
    text::written_lines_are_read(v);
}

/// A description is all that follows the version, tabulators included.
pub proof fn descriptions_are_kept_whole(
    name: Seq<char>,
    version: Seq<char>,
    description: Seq<char>,
    repo: Seq<char>,
    installed: Seq<Seq<char>>,
    names: Map<Seq<char>, Seq<char>>,
)
    requires
        !repo.contains('\t'),
        !name.contains('\t'),
        !version.contains('\t'),
    ensures
        repo_row(
            repo.push('\t') + name.push('\t') + version.push('\t') + description,
            repo,
            installed,
            names,
        ) matches Some(p) && p.name == name && p.version == version && p.description == description,
{
    let line = repo.push('\t') + name.push('\t') + version.push('\t') + description;
    let tab = Sep::At('\t');
    assert forall|i: int| 0 <= i < repo.len() implies !tab.splits(#[trigger] repo[i]) by {
        assert(repo.contains(repo[i]));
    }
    text::unsplit(repo, tab);
    text::split_appended(repo, '\t', name);
    let two = repo.push('\t') + name;
    text::split_appended(two, '\t', version);
    let three = two.push('\t') + version;
    text::split_in_two(three, '\t', description);
    text::split_has_a_piece(description, tab);
    text::join_undoes_split(description, '\t');
    let front = text::split(three, tab);
    let last = text::split(description, tab);
    assert(front =~= seq![repo, name, version]);
    assert(three.push('\t') + description =~= line);
    let parts = text::split(line, tab);
    assert(parts == front + last);
    assert(parts.take(3) =~= front);
    assert(parts.skip(3) =~= last);
    let f = fields(line);
    if parts.len() <= 4 {
        assert(last.len() == 1);
        assert(text::join(last, seq!['\t']) == last[0]);
    }
    assert(f.len() == 4 && f[0] == repo && f[1] == name && f[2] == version && f[3] == description);
}

} // verus!
