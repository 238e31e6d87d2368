use xpm::alpm::AlpmBackend;
use xpm::error::Error;
use xpm::flatpak::FlatpakBackend;
use xpm::manager::{PackageManager, PackageStats, ProgressMessage};
use xpm::operation::{Operation, OperationResult};
use xpm::package::{Package, PackageBackend, PackageStatus, SearchResult, UpdateInfo, Version};

fn error() -> Error {
    Error::Other("failed".to_string())
}

fn package(name: &str) -> Package {
    Package::new(
        name.to_string(),
        Version::new("1"),
        String::new(),
        PackageBackend::Pacman,
        PackageStatus::Installed,
        "local".to_string(),
    )
}

fn result(name: &str, repository: &str) -> SearchResult {
    SearchResult {
        name: name.to_string(),
        version: Version::new("1"),
        description: String::new(),
        backend: PackageBackend::Pacman,
        repository: repository.to_string(),
        installed: false,
        installed_version: None,
    }
}

fn both() -> PackageManager {
    PackageManager::new(AlpmBackend::new(true), FlatpakBackend::new()).unwrap()
}

fn flatpak_only() -> PackageManager {
    PackageManager::new(AlpmBackend::new(false), FlatpakBackend::new()).unwrap()
}

#[test]
fn missing_backends_are_left_out() {
    assert_eq!(both().backends.refs(), vec![PackageBackend::Pacman, PackageBackend::Flatpak]);
    assert_eq!(flatpak_only().backends.refs(), vec![PackageBackend::Flatpak]);
    let none = PackageManager::new(AlpmBackend::new(false), Err(error())).unwrap();
    assert!(none.backends.refs().is_empty());
    match none.backends.get(PackageBackend::Flatpak) {
        Err(Error::BackendUnavailable(s)) => assert_eq!(s, "Flatpak"),
        other => panic!("{:?}", other),
    }
    match none.backends.get(PackageBackend::Pacman) {
        Err(Error::BackendUnavailable(s)) => assert_eq!(s, "Pacman"),
        other => panic!("{:?}", other),
    }
    assert!(both().backends.get(PackageBackend::Pacman).is_ok());
}

#[test]
fn backends_say_whether_they_are_available() {
    assert_eq!(both().available_backends(true, true), vec![PackageBackend::Pacman, PackageBackend::Flatpak]);
    assert_eq!(both().available_backends(false, true), vec![PackageBackend::Flatpak]);
    assert_eq!(flatpak_only().available_backends(true, false), Vec::<PackageBackend>::new());
}

#[test]
fn search_results_are_sorted() {
    let r = PackageManager::search(vec![
        Ok(vec![result("b", "1"), result("a", "1")]),
        Err(error()),
        Ok(vec![result("B", "2"), result("b", "2")]),
    ]);
    let shown: Vec<(&str, &str)> = r.iter().map(|r| (r.name.as_str(), r.repository.as_str())).collect();
    assert_eq!(shown, vec![("B", "2"), ("a", "1"), ("b", "1"), ("b", "2")]);
    assert!(PackageManager::search(vec![Err(error())]).is_empty());
}

#[test]
fn packages_of_all_backends_are_listed() {
    let v = PackageManager::list_installed(vec![Ok(vec![package("z"), package("m")]), Ok(vec![package("a")])]);
    let names: Vec<&str> = v.iter().map(|p| p.name.as_str()).collect();
    assert_eq!(names, vec!["a", "m", "z"]);
    let update = |name: &str| UpdateInfo {
        name: name.to_string(),
        current_version: Version::new("1"),
        new_version: Version::new("2"),
        backend: PackageBackend::Pacman,
        repository: String::new(),
        download_size: 0,
    };
    let v = PackageManager::list_updates(vec![Ok(vec![update("z")]), Err(error()), Ok(vec![update("a")])]);
    let names: Vec<&str> = v.iter().map(|u| u.name.as_str()).collect();
    assert_eq!(names, vec!["z", "a"]);
    assert_eq!(PackageManager::list_orphans(Some(Ok(vec![package("o")]))).len(), 1);
    assert!(PackageManager::list_orphans(Some(Err(error()))).is_empty());
    assert!(PackageManager::list_orphans(None).is_empty());
}

#[test]
fn one_backend_can_be_asked() {
    let m = flatpak_only();
    let r = m.search_backend(PackageBackend::Flatpak, Ok(vec![result("a", "1")])).unwrap();
    assert_eq!(r.len(), 1);
    assert!(matches!(
        m.search_backend(PackageBackend::Pacman, Ok(Vec::new())),
        Err(Error::BackendUnavailable(s)) if s == "Pacman"
    ));
    assert_eq!(m.list_installed_backend(PackageBackend::Flatpak, Ok(vec![package("a")])).unwrap().len(), 1);
    assert!(m.list_installed_backend(PackageBackend::Pacman, Ok(Vec::new())).is_err());
    assert!(matches!(
        m.get_package_info(PackageBackend::Flatpak, Err(Error::PackageNotFound("x".to_string()))),
        Err(Error::PackageNotFound(s)) if s == "x"
    ));
    assert!(matches!(
        m.get_package_info(PackageBackend::Pacman, Err(error())),
        Err(Error::BackendUnavailable(_))
    ));
    assert!(m.sync_databases(Err(error())).is_ok());
    assert!(both().sync_databases(Err(error())).is_err());
    assert!(both().sync_databases(Ok(())).is_ok());
}

#[test]
fn results_are_remembered_and_announced() {
    let mut m = both();
    let o = Operation::install(vec!["vim".to_string()], PackageBackend::Pacman);
    let (r, message) = m.execute(PackageBackend::Pacman, Ok(OperationResult::failure(o, "no", 9)));
    assert_eq!(r.unwrap().error.as_deref(), Some("no"));
    match message {
        Some(ProgressMessage::Completed(c)) => assert_eq!(c.duration_ms, 9),
        other => panic!("{:?}", other),
    }
    assert_eq!(m.state().last_operation.unwrap().duration_ms, 9);
    let (r, message) = m.execute(PackageBackend::Pacman, Err(error()));
    assert!(r.is_err());
    assert!(message.is_none());
    assert_eq!(m.state().last_operation.unwrap().duration_ms, 9);
    let mut m = flatpak_only();
    let o = Operation::install(Vec::new(), PackageBackend::Pacman);
    let (r, message) = m.execute(PackageBackend::Pacman, Ok(OperationResult::success(o, Vec::new(), 1)));
    assert!(matches!(r, Err(Error::BackendUnavailable(_))));
    assert!(message.is_none());
    assert!(m.state().last_operation.is_none());
}

#[test]
fn sizes_of_all_backends_add_up() {
    assert_eq!(PackageManager::get_cache_size(&vec![Ok(5), Err(error()), Ok(7)]), Some(12));
    assert_eq!(PackageManager::get_cache_size(&vec![Ok(u64::MAX), Ok(1)]), None);
    assert_eq!(PackageManager::clean_caches(&vec![Ok(3), Ok(4)]), Some(7));
    assert_eq!(PackageManager::clean_caches(&vec![]), Some(0));
}

#[test]
fn statistics_add_up() {
    let s = PackageManager::get_stats(Some(10), Some(2), None, Some(5), Some(1));
    assert_eq!(s.pacman_installed, 10);
    assert_eq!(s.orphans, 0);
    assert_eq!(s.total_installed(), 15);
    assert_eq!(s.total_updates(), 3);
    let s = PackageStats::default();
    assert_eq!(s.total_installed() + s.total_updates() + s.orphans, 0);
}
