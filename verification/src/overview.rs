//! The lists of the main window, in which an update shows both its versions and the size
//! of its download, and no firmware is listed.
use crate::appstream::AppMap;
use crate::data;
use crate::data::{Questions, Report};
use crate::names;
use crate::names::NameMap;
use crate::package;
use crate::package::{Package, PackageBackend, PackageView, UpdateInfo, UpdateInfoView};
use crate::ui;
use crate::ui::{PackageData, PackageDataView, StatsData, UiMessage, UiMessageView};
use crate::utils;
use vstd::prelude::*;
use vstd::string::*;

verus! {

broadcast use vstd::seq_lib::group_seq_properties;

/// The number that the window has for a backend.
pub open spec fn number(b: PackageBackend) -> i32 {
    match b {
        PackageBackend::Pacman => 0,
        PackageBackend::Flatpak => 1,
    }
}

/// The number that the window has for a backend.
pub fn backend_number(b: PackageBackend) -> (r: i32)
    ensures
        r == number(b),
{
    match b {
        PackageBackend::Pacman => 0,
        PackageBackend::Flatpak => 1,
    }
}

/// The row of a package.
pub open spec fn package_row(
    p: PackageView,
    has_update: bool,
    names: Map<Seq<char>, Seq<char>>,
) -> PackageDataView {
    PackageDataView { backend: number(p.backend), ..data::package_row(p, has_update, names) }
}

/// The row of a package.
pub fn package_to_ui(pkg: &Package, has_update: bool, desktop_map: &NameMap) -> (r: PackageData)
    ensures
        r@ == package_row(pkg@, has_update, desktop_map@),
{
    let mut r = data::package_to_ui(pkg, has_update, desktop_map);
    r.backend = backend_number(pkg.backend);
    r
}

/// The row of an update: the change stands as its version and as its description, and the
/// size of the download as its size.
pub open spec fn update_row(u: UpdateInfoView) -> PackageDataView {
    PackageDataView {
        version: data::change(u.current_version, u.new_version),
        backend: number(u.backend),
        installed_size: utils::size_text(u.download_size),
        ..data::update_row(u)
    }
}

/// The row of an update.
pub fn update_to_ui(update: &UpdateInfo) -> (r: PackageData)
    ensures
        r@ == update_row(update@),
{
    let mut r = data::update_to_ui(update);
    r.version =
    data::change_of(update.current_version.text.as_str(), update.new_version.text.as_str());
    r.backend = backend_number(update.backend);
    r.installed_size = utils::format_size(update.download_size);
    r
}

/// The rows of packages.
pub open spec fn package_rows(
    v: Seq<PackageView>,
    updates: Seq<UpdateInfoView>,
    names: Map<Seq<char>, Seq<char>>,
) -> Seq<PackageDataView> {
    v.map_values(
        |p: PackageView| package_row(p, data::update_names(updates).contains(p.name), names),
    )
}

/// The rows of updates.
pub open spec fn update_rows(v: Seq<UpdateInfoView>) -> Seq<PackageDataView> {
    v.map_values(|u: UpdateInfoView| update_row(u))
}

/// The rows of packages.
fn packages_to_ui(v: &Vec<Package>, updates: &Vec<UpdateInfo>, names: &NameMap) -> (r: Vec<
    PackageData,
>)
    ensures
        ui::rows(r@) == package_rows(package::packages(v@), package::updates(updates@), names@),
{
    let set = data::names_of(updates);
    let ghost wanted = package_rows(package::packages(v@), package::updates(updates@), names@);
    let mut r: Vec<PackageData> = Vec::new();
    let mut i: usize = 0;
    while i < v.len()
        invariant
            i <= v@.len(),
            wanted == package_rows(package::packages(v@), package::updates(updates@), names@),
            forall|name: Seq<char>| #[trigger]
                set@.contains(name) <==> data::update_names(package::updates(updates@)).contains(
                    name,
                ),
            ui::rows(r@) == wanted.take(i as int),
        decreases v@.len() - i,
    {
        let ghost before = ui::rows(r@);
        let row = package_to_ui(&v[i], set.contains(v[i].name.as_str()), names);
        r.push(row);
        assert(package::packages(v@)[i as int] == v@[i as int]@);
        assert(wanted[i as int] == row@);
        assert(ui::rows(r@) =~= before.push(row@));
        i += 1;
    }
    assert(wanted.take(wanted.len() as int) =~= wanted);
    r
}

/// The rows of updates.
fn updates_to_ui(v: &Vec<UpdateInfo>) -> (r: Vec<PackageData>)
    ensures
        ui::rows(r@) == update_rows(package::updates(v@)),
{
    let ghost wanted = update_rows(package::updates(v@));
    let mut r: Vec<PackageData> = Vec::new();
    let mut i: usize = 0;
    while i < v.len()
        invariant
            i <= v@.len(),
            wanted == update_rows(package::updates(v@)),
            ui::rows(r@) == wanted.take(i as int),
        decreases v@.len() - i,
    {
        let ghost before = ui::rows(r@);
        let row = update_to_ui(&v[i]);
        r.push(row);
        assert(package::updates(v@)[i as int] == v@[i as int]@);
        assert(wanted[i as int] == row@);
        assert(ui::rows(r@) =~= before.push(row@));
        i += 1;
    }
    assert(wanted.take(wanted.len() as int) =~= wanted);
    r
}

/// The lists of a report.
pub open spec fn loaded(
    report: Report,
    names: Map<Seq<char>, Seq<char>>,
    apps: Map<Seq<char>, (Seq<char>, Seq<char>)>,
) -> UiMessageView {
    let updates = data::checked_updates(report.checked);
    UiMessageView::PackagesLoaded {
        installed: package_rows(report.packages(), updates, names),
        updates: update_rows(updates) + report.plasmoids(),
        flatpak: data::flatpak_rows(report.apps(), report.app_updates(), apps),
        firmware: Seq::empty(),
        stats: data::figures(
            report,
            updates.len() + report.app_updates().len() + report.plasmoids().len(),
        ),
    }
}

/// The questions that are asked: those about updates only when explicitly requested, and
/// none about firmware.
pub open spec fn asked(check_updates: bool) -> Questions {
    Questions { firmware: false, ..data::asked(check_updates) }
}

/// The questions that are asked: those about updates only when explicitly requested, and
/// none about firmware.
pub fn questions(check_updates: bool) -> (r: Questions)
    ensures
        r == asked(check_updates),
{
    let mut r = data::questions(check_updates);
    r.firmware = false;
    r
}

/// The lists of a report: the packages, the updates of the distribution and of plasmoids,
/// the applications and the figures. What the report says of updates counts only where
/// they were to be checked.
pub fn load_packages_async(
    report: Report,
    check_updates: bool,
    desktop_map: &NameMap,
    apps: &AppMap,
) -> (r: UiMessage)
    ensures
        r@ == loaded(report.answering(asked(check_updates)), desktop_map@, apps@),
{
    let report = report.answers(questions(check_updates));
    let updates = data::updates_of(&report.checked);
    let packages = data::or_no_packages(report.installed);
    let flatpaks = data::or_no_packages(report.flatpaks);
    let flatpak_updates = data::or_no_updates(report.flatpak_updates);
    let installed_ui = packages_to_ui(&packages, &updates, desktop_map);
    let flatpak_ui = data::flatpaks_to_ui(&flatpaks, &flatpak_updates, apps);
    let mut all_updates = updates_to_ui(&updates);
    let mut plasmoids = data::or_no_rows(report.plasmoid_updates);
    let plasmoid_count: usize = plasmoids.len();
    let ghost u = ui::rows(all_updates@);
    let ghost p = ui::rows(plasmoids@);
    all_updates.append(&mut plasmoids);
    assert(ui::rows(all_updates@) =~= u + p);
    let total: u128 = updates.len() as u128 + flatpak_updates.len() as u128
        + plasmoid_count as u128;
    assert(package::packages(packages@).len() == packages@.len());
    assert(package::packages(flatpaks@).len() == flatpaks@.len());
    assert(package::updates(updates@).len() == updates@.len());
    assert(package::updates(flatpak_updates@).len() == flatpak_updates@.len());
    let stats = StatsData {
        pacman_count: packages.len() as i32,
        flatpak_count: flatpaks.len() as i32,
        orphan_count: (match report.orphans {
            Some(n) => n,
            None => 0,
        }) as i32,
        update_count: total as i32,
        cache_size: utils::format_size(
            match report.cache_size {
                Some(n) => n,
                None => 0,
            },
        ),
    };
    let none: Vec<PackageData> = Vec::new();
    assert(ui::rows(none@) =~= Seq::empty());
    UiMessage::PackagesLoaded {
        installed: installed_ui,
        updates: all_updates,
        flatpak: flatpak_ui,
        firmware: none,
        stats,
    }
}

/// Where a report says nothing of updates, none is shown.
pub proof fn silence_shows_no_update(
    report: Report,
    names: Map<Seq<char>, Seq<char>>,
    apps: Map<Seq<char>, (Seq<char>, Seq<char>)>,
)
    requires
        data::is_silent(report),
    ensures
        data::shows_no_update(loaded(report, names, apps)),
{
}

/// Updates are only checked for when explicitly requested: without a request no question
/// about them is asked, and none is shown, whatever a report says.
pub proof fn no_update_without_request(
    report: Report,
    names: Map<Seq<char>, Seq<char>>,
    apps: Map<Seq<char>, (Seq<char>, Seq<char>)>,
)
    ensures
        ({
            let q = asked(false);
            !q.flatpak_updates && !q.checked && !q.plasmoid_updates && !q.firmware
        }),
        data::shows_no_update(loaded(report.answering(asked(false)), names, apps)),
{
    silence_shows_no_update(report.answering(asked(false)), names, apps);
}

/// No firmware is ever asked for, and what a report says of it makes no difference.
pub proof fn firmware_makes_no_difference(
    report: Report,
    check_updates: bool,
    names: Map<Seq<char>, Seq<char>>,
    apps: Map<Seq<char>, (Seq<char>, Seq<char>)>,
)
    ensures
        !asked(check_updates).firmware,
        check_updates ==> loaded(report.answering(asked(check_updates)), names, apps) == loaded(
            report,
            names,
            apps,
        ),
{
}

/// A row says what is known of its package: its name, its version, where it came from, and
/// whether it is installed and has an update.
pub proof fn rows_say_what_is_known(
    p: PackageView,
    u: UpdateInfoView,
    has_update: bool,
    names: Map<Seq<char>, Seq<char>>,
)
    ensures
        ({
            let row = package_row(p, has_update, names);
            &&& row.name == p.name
            &&& row.display_name == names::humanized(p.name, names)
            &&& row.version == p.version
            &&& row.description == p.description
            &&& row.repository == p.repository
            &&& p.backend == PackageBackend::Pacman ==> row.backend == 0
            &&& p.backend == PackageBackend::Flatpak ==> row.backend == 1
            &&& row.installed <==> p.status == package::PackageStatus::Installed || p.status
                == package::PackageStatus::Orphan
            &&& row.has_update == has_update
            &&& !row.selected
        }),
        ({
            let row = update_row(u);
            &&& row.name == u.name
            &&& row.display_name == u.name
            &&& row.version == u.current_version + " → "@ + u.new_version
            &&& row.repository == u.repository
            &&& u.backend == PackageBackend::Pacman ==> row.backend == 0
            &&& u.backend == PackageBackend::Flatpak ==> row.backend == 1
            &&& row.installed_size == utils::size_text(u.download_size)
            &&& row.installed
            &&& row.has_update
        }),
{
}

/// All that is reported is loaded: each package and application with its name, and with an
/// update where one of that name is announced; the announced updates and the plasmoids; no
/// firmware; and how many of each there are.
pub proof fn everything_reported_is_loaded(
    report: Report,
    names: Map<Seq<char>, Seq<char>>,
    apps: Map<Seq<char>, (Seq<char>, Seq<char>)>,
)
    ensures
        ({
            let announced = data::checked_updates(report.checked);
            let total = announced.len() + report.app_updates().len() + report.plasmoids().len();
            loaded(report, names, apps) matches UiMessageView::PackagesLoaded {
                installed,
                updates,
                flatpak,
                firmware,
                stats,
            } && {
                &&& installed.len() == report.packages().len()
                &&& forall|i: int|
                    0 <= i < installed.len() ==> (#[trigger] installed[i]).name
                        == report.packages()[i].name && installed[i].version
                        == report.packages()[i].version && (installed[i].has_update <==> exists|
                        k: int,
                    |
                        0 <= k < announced.len() && (#[trigger] announced[k]).name
                            == installed[i].name)
                &&& flatpak.len() == report.apps().len()
                &&& forall|i: int|
                    0 <= i < flatpak.len() ==> (#[trigger] flatpak[i]).name == report.apps()[i].name
                &&& updates.len() == announced.len() + report.plasmoids().len()
                &&& forall|i: int|
                    0 <= i < announced.len() ==> (#[trigger] updates[i]).name == announced[i].name
                        && updates[i].version == announced[i].current_version + " → "@
                        + announced[i].new_version
                &&& updates.skip(announced.len() as int) == report.plasmoids()
                &&& firmware.len() == 0
                &&& total <= i32::MAX ==> stats.update_count == total
                &&& report.packages().len() <= i32::MAX ==> stats.pacman_count
                    == report.packages().len()
                &&& report.apps().len() <= i32::MAX ==> stats.flatpak_count == report.apps().len()
                &&& report.orphans matches Some(n) ==> (n <= i32::MAX ==> stats.orphan_count == n)
                &&& report.orphans is None ==> stats.orphan_count == 0
                &&& report.cache_size matches Some(n) ==> stats.cache_size == utils::size_text(n)
                &&& report.cache_size is None ==> stats.cache_size == utils::size_text(0)
            }
        }),
{
    let announced = data::checked_updates(report.checked);
    let rows = update_rows(announced) + report.plasmoids();
    assert(rows.skip(announced.len() as int) =~= report.plasmoids());
    let installed = package_rows(report.packages(), announced, names);
    let known = data::update_names(announced);
    assert forall|i: int| 0 <= i < installed.len() implies ((#[trigger] installed[i]).has_update
        <==> exists|k: int|
        0 <= k < announced.len() && (#[trigger] announced[k]).name == installed[i].name) by {
        if installed[i].has_update {
            let k = choose|k: int| 0 <= k < known.len() && known[k] == installed[i].name;
            assert(announced[k].name == installed[i].name);
        }
        if exists|k: int|
            0 <= k < announced.len() && (#[trigger] announced[k]).name == installed[i].name {
            let k = choose|k: int|
                0 <= k < announced.len() && (#[trigger] announced[k]).name == installed[i].name;
            assert(known[k] == installed[i].name);
        }
    }
}

/// Updates are asked for exactly on request, those of firmware never.
pub proof fn questions_follow_the_request(check_updates: bool)
    ensures
        asked(check_updates).checked == check_updates,
        asked(check_updates).flatpak_updates == check_updates,
        asked(check_updates).plasmoid_updates == check_updates,
        !asked(check_updates).firmware,
{
}

} // verus!
