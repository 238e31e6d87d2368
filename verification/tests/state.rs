use xpm::package::{Package, PackageBackend, PackageStatus, UpdateInfo, Version};
use xpm::state::{AppState, FilterOptions, ViewState};

fn package(name: &str, description: &str, backend: PackageBackend) -> Package {
    Package::new(
        name.to_string(),
        Version::new("1"),
        description.to_string(),
        backend,
        PackageStatus::Installed,
        "local".to_string(),
    )
}

fn update(name: &str, backend: PackageBackend) -> UpdateInfo {
    UpdateInfo {
        name: name.to_string(),
        current_version: Version::new("1"),
        new_version: Version::new("2"),
        backend,
        repository: "extra".to_string(),
        download_size: 1,
    }
}

fn state() -> AppState {
    let mut s = AppState::new();
    s.installed_packages = vec![
        package("Vim", "An editor", PackageBackend::Pacman),
        package("org.gimp.GIMP", "Edit images", PackageBackend::Flatpak),
        package("zsh", "A SHELL", PackageBackend::Pacman),
    ];
    s
}

fn names(v: Vec<&Package>) -> Vec<String> {
    v.iter().map(|p| p.name.clone()).collect()
}

#[test]
fn a_state_starts_empty() {
    let s = AppState::new();
    assert_eq!(s.view, ViewState::Installed);
    assert_eq!(s.filter.search_text, "");
    assert_eq!(s.filter.backend, None);
    assert!(!s.filter.explicit_only && !s.filter.updates_only);
    assert!(s.selected_package.is_none());
    assert!(s.installed_packages.is_empty() && s.updates.is_empty() && s.search_results.is_empty());
    assert!(s.last_operation.is_none());
    assert!(!s.operation_in_progress);
    assert!(s.error_message.is_none());
    assert_eq!(AppState::default().view, ViewState::default());
}

#[test]
fn views_forget_the_selected_package() {
    let mut s = AppState::new();
    s.selected_package = Some("vim".to_string());
    s.set_view(ViewState::Updates);
    assert_eq!(s.view, ViewState::Updates);
    assert!(s.selected_package.is_none());
    s.set_error("broken".to_string());
    assert_eq!(s.error_message.as_deref(), Some("broken"));
    s.clear_error();
    assert!(s.error_message.is_none());
}

#[test]
fn packages_are_filtered() {
    let mut s = state();
    assert_eq!(names(s.filtered_installed()).len(), 3);
    s.set_search("EDIT");
    assert_eq!(names(s.filtered_installed()), vec!["Vim", "org.gimp.GIMP"]);
    s.filter.backend = Some(PackageBackend::Flatpak);
    assert_eq!(names(s.filtered_installed()), vec!["org.gimp.GIMP"]);
    s.set_search("shell");
    assert!(s.filtered_installed().is_empty());
    s.filter.backend = None;
    assert_eq!(names(s.filtered_installed()), vec!["zsh"]);
}

#[test]
fn filters_match_names_and_descriptions() {
    let mut f = FilterOptions::default();
    let none = Vec::new();
    assert!(f.matches(&package("a", "b", PackageBackend::Pacman), &none));
    f.search_text = "ÄB".to_string();
    assert!(f.matches(&package("xäb", "", PackageBackend::Pacman), &none));
    assert!(f.matches(&package("", "Äb", PackageBackend::Pacman), &none));
    assert!(!f.matches(&package("a", "b", PackageBackend::Pacman), &none));
}

#[test]
fn only_packages_with_updates_are_shown() {
    let mut s = state();
    s.filter.updates_only = true;
    assert!(s.filtered_installed().is_empty());
    s.updates = vec![
        update("zsh", PackageBackend::Pacman),
        update("Vim", PackageBackend::Flatpak),
        update("org.gimp.GIMP", PackageBackend::Flatpak),
    ];
    assert_eq!(names(s.filtered_installed()), vec!["org.gimp.GIMP", "zsh"]);
    s.set_search("shell");
    assert_eq!(names(s.filtered_installed()), vec!["zsh"]);
    s.filter.updates_only = false;
    s.filter.explicit_only = true;
    s.set_search("");
    assert_eq!(s.filtered_installed().len(), 3);
}

#[test]
fn filtering_again_changes_nothing() {
    let mut s = state();
    s.set_search("e");
    let once: Vec<Package> = s.filtered_installed().into_iter().cloned().collect();
    let mut again = state();
    again.set_search("e");
    again.installed_packages = once.clone();
    assert_eq!(again.filtered_installed().len(), once.len());
}

#[test]
fn packages_are_counted_by_backend() {
    let s = state();
    let pacman = s.installed_count_by_backend(PackageBackend::Pacman);
    let flatpak = s.installed_count_by_backend(PackageBackend::Flatpak);
    assert_eq!((pacman, flatpak), (2, 1));
    assert_eq!(pacman + flatpak, s.installed_packages.len());
    let mut only = state();
    only.filter.backend = Some(PackageBackend::Pacman);
    assert_eq!(only.filtered_installed().len(), pacman);
}
