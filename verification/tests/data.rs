use xpm::appstream::AppMap;
use xpm::backends::init_backends;
use xpm::alpm::AlpmBackend;
use xpm::data::{
    flatpak_to_ui, list_repo, load_packages_async, load_repo_packages, no_results, package_to_ui,
    parse_updates, questions, search_packages_async, update_to_ui, updates_of, Questions, Report,
};
use xpm::flatpak::FlatpakBackend;
use xpm::names::NameMap;
use xpm::overview;
use xpm::package::{Package, PackageBackend, PackageStatus, SearchResult, UpdateInfo, Version};
use xpm::text::chars_of;
use xpm::ui::{PackageData, UiMessage};

fn package(name: &str, backend: PackageBackend, status: PackageStatus) -> Package {
    Package::new(
        name.to_string(),
        Version::new("1.0-1"),
        format!("About {}", name),
        backend,
        status,
        "repo".to_string(),
    )
}

fn update(name: &str, backend: PackageBackend) -> UpdateInfo {
    UpdateInfo {
        name: name.to_string(),
        current_version: Version::new("1"),
        new_version: Version::new("2"),
        backend,
        repository: "core".to_string(),
        download_size: 2048,
    }
}

fn result(name: &str, backend: PackageBackend, installed: bool) -> SearchResult {
    SearchResult {
        name: name.to_string(),
        version: Version::new("3"),
        description: format!("Find {}", name),
        backend,
        repository: "extra".to_string(),
        installed,
        installed_version: None,
    }
}

fn row(name: &str, has_update: bool) -> PackageData {
    PackageData::plain(
        name.to_string(),
        name.to_string(),
        "1".to_string(),
        String::new(),
        "fwupd".to_string(),
        4,
        true,
        has_update,
    )
}

#[test]
fn updates_are_parsed() {
    let v = parse_updates("vim 9.0-1 -> 9.1-1\nlone\nnano 8.0\n\n  spaced   1 ->  2  extra\n");
    let shown: Vec<(&str, &str, &str)> = v
        .iter()
        .map(|u| (u.name.as_str(), u.current_version.text.as_str(), u.new_version.text.as_str()))
        .collect();
    assert_eq!(shown, vec![("vim", "9.0-1", "9.1-1"), ("nano", "", "8.0"), ("spaced", "1", "2")]);
    assert_eq!(v[0].backend, PackageBackend::Pacman);
    assert_eq!(v[0].repository, "");
    assert_eq!(v[0].download_size, 0);
    assert!(updates_of(&None).is_empty());
    assert_eq!(updates_of(&Some(b"a\xff 1 -> 2".to_vec()))[0].name, "a\u{fffd}");
}

#[test]
fn packages_are_shown() {
    let mut names = NameMap::new();
    names.insert("vim".to_string(), "Vi Improved".to_string());
    let p = package_to_ui(&package("vim", PackageBackend::Flatpak, PackageStatus::Orphan), true, &names);
    assert_eq!(p.name, "vim");
    assert_eq!(p.display_name, "Vi Improved");
    assert_eq!(p.version, "1.0-1");
    assert_eq!(p.description, "About vim");
    assert_eq!(p.repository, "repo");
    assert_eq!(p.backend, 0);
    assert!(p.installed);
    assert!(p.has_update);
    let p = package_to_ui(&package("a-b", PackageBackend::Pacman, PackageStatus::Available), false, &names);
    assert_eq!(p.display_name, "A B");
    assert!(!p.installed);
    let p = overview::package_to_ui(&package("x", PackageBackend::Flatpak, PackageStatus::Installed), false, &names);
    assert_eq!(p.backend, 1);
    assert!(p.installed);
}

#[test]
fn updates_are_shown_with_both_versions() {
    let p = update_to_ui(&update("vim", PackageBackend::Flatpak));
    assert_eq!(p.version, "2");
    assert_eq!(p.description, "1 → 2");
    assert_eq!(p.backend, 0);
    assert_eq!(p.installed_size, "");
    assert!(p.installed && p.has_update);
    let p = overview::update_to_ui(&update("vim", PackageBackend::Flatpak));
    assert_eq!(p.version, "1 → 2");
    assert_eq!(p.description, "1 → 2");
    assert_eq!(p.backend, 1);
    assert_eq!(p.installed_size, "2.0 KB");
    assert_eq!(p.repository, "core");
}

#[test]
fn flatpaks_are_shown_by_their_names() {
    let mut apps = AppMap::new();
    apps.insert("org.gimp.gimp".to_string(), "GIMP".to_string(), "Images".to_string());
    let p = flatpak_to_ui(&package("org.gimp.GIMP", PackageBackend::Flatpak, PackageStatus::Installed), true, &apps);
    assert_eq!(p.display_name, "GIMP");
    assert_eq!(p.description, "Images");
    assert_eq!(p.backend, 1);
    assert!(p.has_update);
    let p = flatpak_to_ui(&package("org.x.My_App-one", PackageBackend::Flatpak, PackageStatus::Available), false, &apps);
    assert_eq!(p.display_name, "My App one");
    assert_eq!(p.description, "");
    assert!(!p.installed);
}

fn report() -> Report {
    Report {
        installed: Some(vec![
            package("vim", PackageBackend::Pacman, PackageStatus::Installed),
            package("nano", PackageBackend::Pacman, PackageStatus::Orphan),
        ]),
        cache_size: Some(1536),
        orphans: Some(1),
        flatpaks: Some(vec![package("org.a.A", PackageBackend::Flatpak, PackageStatus::Installed)]),
        flatpak_updates: Some(vec![update("org.a.A", PackageBackend::Flatpak)]),
        checked: Some(b"vim 1 -> 2\n".to_vec()),
        plasmoid_updates: Some(vec![row("clock", true)]),
        firmware: Some(vec![row("ssd", false), row("dock", true)]),
    }
}

#[test]
fn everything_is_loaded() {
    match load_packages_async(report(), true, &NameMap::new(), &AppMap::new()) {
        UiMessage::PackagesLoaded { installed, updates, flatpak, firmware, stats } => {
            let shown: Vec<(&str, bool)> =
                installed.iter().map(|p| (p.name.as_str(), p.has_update)).collect();
            assert_eq!(shown, vec![("vim", true), ("nano", false)]);
            let shown: Vec<&str> = updates.iter().map(|p| p.name.as_str()).collect();
            assert_eq!(shown, vec!["vim", "clock", "dock"]);
            assert!(flatpak[0].has_update);
            assert_eq!(firmware.len(), 2);
            assert_eq!(stats.pacman_count, 2);
            assert_eq!(stats.flatpak_count, 1);
            assert_eq!(stats.orphan_count, 1);
            assert_eq!(stats.update_count, 4);
            assert_eq!(stats.cache_size, "1.5 KB");
        }
        other => panic!("{:?}", other),
    }
}

#[test]
fn the_overview_leaves_firmware_out() {
    match overview::load_packages_async(report(), true, &NameMap::new(), &AppMap::new()) {
        UiMessage::PackagesLoaded { updates, stats, firmware, .. } => {
            let shown: Vec<&str> = updates.iter().map(|p| p.name.as_str()).collect();
            assert_eq!(shown, vec!["vim", "clock"]);
            assert_eq!(updates[0].version, "1 → 2");
            assert_eq!(stats.update_count, 3);
            assert!(firmware.is_empty());
        }
        other => panic!("{:?}", other),
    }
}

#[test]
fn what_is_missing_counts_for_nothing() {
    let nothing = Report {
        installed: None,
        cache_size: None,
        orphans: None,
        flatpaks: None,
        flatpak_updates: None,
        checked: None,
        plasmoid_updates: None,
        firmware: None,
    };
    match load_packages_async(nothing, true, &NameMap::new(), &AppMap::new()) {
        UiMessage::PackagesLoaded { installed, updates, flatpak, firmware, stats } => {
            assert!(installed.is_empty() && updates.is_empty() && flatpak.is_empty() && firmware.is_empty());
            assert_eq!(stats.update_count, 0);
            assert_eq!(stats.cache_size, "0 B");
        }
        other => panic!("{:?}", other),
    }
}

#[test]
fn updates_are_only_checked_on_request() {
    let q = questions(true);
    assert!(q.flatpak_updates && q.checked && q.plasmoid_updates && q.firmware);
    let q = overview::questions(true);
    assert!(q.flatpak_updates && q.checked && q.plasmoid_updates && !q.firmware);
    let none =
        Questions { flatpak_updates: false, checked: false, plasmoid_updates: false, firmware: false };
    assert_eq!(questions(false), none);
    assert_eq!(overview::questions(false), none);
    for message in [
        load_packages_async(report(), false, &NameMap::new(), &AppMap::new()),
        overview::load_packages_async(report(), false, &NameMap::new(), &AppMap::new()),
    ] {
        match message {
            UiMessage::PackagesLoaded { installed, updates, flatpak, firmware, stats } => {
                assert_eq!((installed.len(), flatpak.len()), (2, 1));
                assert!(installed.iter().chain(flatpak.iter()).all(|p| !p.has_update));
                assert!(updates.is_empty() && firmware.is_empty());
                assert_eq!(stats.update_count, 0);
                assert_eq!(stats.pacman_count, 2);
                assert_eq!(stats.cache_size, "1.5 KB");
            }
            other => panic!("{:?}", other),
        }
    }
}

#[test]
fn answers_count_only_where_they_were_asked_for() {
    let only = Questions { flatpak_updates: true, checked: false, plasmoid_updates: false, firmware: true };
    let r = report().answers(only);
    assert_eq!(r.flatpak_updates.map(|v| v.len()), Some(1));
    assert!(r.checked.is_none() && r.plasmoid_updates.is_none());
    assert_eq!(r.firmware.map(|v| v.len()), Some(2));
    assert_eq!(r.installed.map(|v| v.len()), Some(2));
    assert_eq!((r.cache_size, r.orphans), (Some(1536), Some(1)));
}

#[test]
fn searches_show_both_backends() {
    let pacman = vec![result("my-tool", PackageBackend::Pacman, true)];
    let flatpak = vec![result("org.my.Tool", PackageBackend::Flatpak, false)];
    match search_packages_async(&pacman, &flatpak, &NameMap::new()) {
        UiMessage::SearchResults(v) => {
            assert_eq!(v.len(), 2);
            assert_eq!(v[0].display_name, "My Tool");
            assert_eq!(v[0].backend, 0);
            assert!(v[0].installed);
            assert_eq!(v[1].display_name, "org.my.Tool");
            assert_eq!(v[1].backend, 1);
            assert_eq!(v[1].description, "Find org.my.Tool");
            assert_eq!(v[1].version, "3");
            assert_eq!(v[1].repository, "extra");
        }
        other => panic!("{:?}", other),
    }
    assert!(matches!(no_results(), UiMessage::SearchResults(v) if v.is_empty()));
}

#[test]
fn searches_show_100_results() {
    let pacman: Vec<SearchResult> =
        (0..70).map(|i| result(&format!("p{}", i), PackageBackend::Pacman, false)).collect();
    let flatpak: Vec<SearchResult> =
        (0..70).map(|i| result(&format!("f{}", i), PackageBackend::Flatpak, false)).collect();
    match search_packages_async(&pacman, &flatpak, &NameMap::new()) {
        UiMessage::SearchResults(v) => {
            assert_eq!(v.len(), 100);
            assert_eq!(v[69].name, "p69");
            assert_eq!(v[70].name, "f0");
            assert_eq!(v[99].name, "f29");
        }
        other => panic!("{:?}", other),
    }
}

#[test]
fn repositories_are_loaded() {
    let listing = b"core\tvim\t9.1-1\tVi\tImproved\nextra\tnano\t8-1\tEditor\ncore\tbad\ncore\tzsh\t5-1\t\n".to_vec();
    let installed = b"zsh\nnano\n".to_vec();
    match load_repo_packages(&Some(installed), &Some(listing.clone()), "core", &NameMap::new()) {
        UiMessage::RepoPackages(v) => {
            let shown: Vec<(&str, &str, &str, bool)> = v
                .iter()
                .map(|p| (p.name.as_str(), p.version.as_str(), p.description.as_str(), p.installed))
                .collect();
            assert_eq!(shown, vec![("vim", "9.1-1", "Vi\tImproved", false), ("zsh", "5-1", "", true)]);
            assert_eq!(v[0].display_name, "Vim");
            assert_eq!(v[0].repository, "core");
        }
        other => panic!("{:?}", other),
    }
    assert!(matches!(
        load_repo_packages(&None, &None, "core", &NameMap::new()),
        UiMessage::RepoPackages(v) if v.is_empty()
    ));
    match load_repo_packages(&None, &Some(listing), "extra", &NameMap::new()) {
        UiMessage::RepoPackages(v) => assert!(!v[0].installed),
        other => panic!("{:?}", other),
    }
}

#[test]
fn both_backends_are_needed() {
    assert!(init_backends(AlpmBackend::new(true), FlatpakBackend::new()).is_some());
    assert!(init_backends(AlpmBackend::new(false), FlatpakBackend::new()).is_none());
}

#[test]
fn lines_of_a_listing_are_packages() {
    let names = vec![chars_of("b")];
    let lines = vec![chars_of("r\ta\t1\tA"), chars_of("r\tb\t2\tB"), chars_of("s\tc\t3\tC"), chars_of("r")];
    let v = list_repo(&names, &lines, "r", &NameMap::new());
    let shown: Vec<(&str, bool)> = v.iter().map(|p| (p.name.as_str(), p.installed)).collect();
    assert_eq!(shown, vec![("a", false), ("b", true)]);
}
