use xpm::operation::{
    Operation, OperationKind, OperationProgress, OperationResult, OperationStatus,
};
use xpm::package::{Package, PackageBackend, PackageStatus, Version};

fn package(name: &str) -> Package {
    Package::new(
        name.to_string(),
        Version::new("1.0-1"),
        "A package".to_string(),
        PackageBackend::Pacman,
        PackageStatus::Installed,
        "core".to_string(),
    )
}

#[test]
fn kinds_have_names() {
    let all = [
        (OperationKind::Install, "Install"),
        (OperationKind::Remove, "Remove"),
        (OperationKind::RemoveWithDeps, "Remove with dependencies"),
        (OperationKind::Update, "Update"),
        (OperationKind::SystemUpgrade, "System upgrade"),
        (OperationKind::SyncDatabases, "Sync databases"),
        (OperationKind::CleanCache, "Clean cache"),
        (OperationKind::RemoveOrphans, "Remove orphans"),
    ];
    for (kind, name) in all {
        assert_eq!(kind.to_string(), name);
    }
}

#[test]
fn operations_are_made() {
    let names = vec!["vim".to_string(), "nano".to_string()];
    let o = Operation::install(names.clone(), PackageBackend::Pacman);
    assert_eq!(o.kind, OperationKind::Install);
    assert_eq!(o.packages, names);
    assert_eq!(o.backend, PackageBackend::Pacman);
    let o = Operation::remove(names.clone(), PackageBackend::Flatpak);
    assert_eq!(o.kind, OperationKind::Remove);
    assert_eq!(o.backend, PackageBackend::Flatpak);
    let o = Operation::update(names.clone(), PackageBackend::Pacman);
    assert_eq!(o.kind, OperationKind::Update);
    assert_eq!(o.packages, names);
    let o = Operation::system_upgrade(PackageBackend::Pacman);
    assert_eq!(o.kind, OperationKind::SystemUpgrade);
    assert!(o.packages.is_empty());
    let o = Operation::sync_databases(PackageBackend::Flatpak);
    assert_eq!(o.kind, OperationKind::SyncDatabases);
    assert!(o.packages.is_empty());
    assert_eq!(o.backend, PackageBackend::Flatpak);
}

#[test]
fn results_are_made() {
    let o = Operation::install(vec!["vim".to_string()], PackageBackend::Pacman);
    let r = OperationResult::success(o.clone(), vec![package("vim")], 12);
    assert!(r.is_success());
    assert_eq!(r.status, OperationStatus::Completed);
    assert_eq!(r.affected_packages.len(), 1);
    assert_eq!(r.affected_packages[0].name, "vim");
    assert_eq!(r.error, None);
    assert_eq!(r.duration_ms, 12);
    let r = r.with_warning("first").with_warning("second");
    assert_eq!(r.warnings, vec!["first".to_string(), "second".to_string()]);
    assert!(r.is_success());
    let r = OperationResult::failure(o, "no", 3);
    assert!(!r.is_success());
    assert_eq!(r.status, OperationStatus::Failed);
    assert_eq!(r.error, Some("no".to_string()));
    assert!(r.affected_packages.is_empty());
    assert!(r.warnings.is_empty());
}

#[test]
fn progress_starts_at_nothing() {
    let p = OperationProgress::new(4, 1000);
    assert_eq!(p.status, OperationStatus::Pending);
    assert_eq!(p.current_package, None);
    assert_eq!(p.total_packages, 4);
    assert_eq!(p.completed_packages, 0);
    assert_eq!(p.total_bytes, 1000);
    assert_eq!(p.downloaded_bytes, 0);
    assert_eq!(p.message, "");
    assert_eq!(p.download_percent(), 0);
    assert_eq!(p.package_percent(), 0);
}

#[test]
fn percentages_run_from_0_to_100() {
    let mut p = OperationProgress::new(3, 3);
    assert_eq!(OperationProgress::new(0, 0).download_percent(), 100);
    assert_eq!(OperationProgress::new(0, 0).package_percent(), 100);
    let wanted = [0u8, 33, 66, 100];
    for n in 0..4usize {
        p.completed_packages = n;
        p.downloaded_bytes = n as u64;
        assert_eq!(p.package_percent(), wanted[n]);
        assert_eq!(p.download_percent(), wanted[n]);
    }
    p.downloaded_bytes = 4;
    assert_eq!(p.download_percent(), 100);
    p.downloaded_bytes = u64::MAX;
    assert_eq!(p.download_percent(), 100);
}

#[test]
fn percentages_are_those_of_doubles() {
    let mut x: u64 = 0x9e3779b97f4a7c15;
    let mut next = move || {
        x ^= x << 13;
        x ^= x >> 7;
        x ^= x << 17;
        x
    };
    for i in 0..20000u32 {
        let a = next() >> (i % 60);
        let b = next() >> ((i / 7) % 60);
        let (done, total) = if a <= b { (a, b) } else { (b, a) };
        if total == 0 {
            continue;
        }
        let mut p = OperationProgress::new(1, total);
        p.downloaded_bytes = done;
        let wanted = ((done as f64 / total as f64) * 100.0) as u8;
        assert_eq!(p.download_percent(), wanted, "{} of {}", done, total);
        let mut p = OperationProgress::new(total as usize, 0);
        p.completed_packages = done as usize;
        assert_eq!(p.package_percent(), wanted, "{} of {}", done, total);
    }
    for total in 1..300u64 {
        for done in 0..=total {
            let mut p = OperationProgress::new(1, total);
            p.downloaded_bytes = done;
            assert_eq!(p.download_percent(), ((done as f64 / total as f64) * 100.0) as u8);
        }
    }
}

#[test]
fn percentages_never_fall() {
    let mut p = OperationProgress::new(1, 997);
    let mut last = 0;
    for done in 0..=997u64 {
        p.downloaded_bytes = done;
        assert!(p.download_percent() >= last);
        last = p.download_percent();
    }
    assert_eq!(last, 100);
}
