use xpm::alpm::{
    expand_repo_vars, get_package_info, is_orphan, list_installed, list_orphans, list_updates,
    package_info_from_sync, parse_pacman_repos, repo_configs, resolve_arch, search, to_utc,
    AlpmBackend, AlpmConfig, AlpmPackage, Candidate, Compared, PacmanConfig, RepoConfig, SyncDb,
};
use xpm::error::Error;
use xpm::operation::{Operation, OperationKind, OperationStatus};
use xpm::package::{InstallReason, PackageBackend, PackageStatus};
use xpm::source::{Done, PackageSource, Work};

fn package(name: &str, reason: InstallReason, required: bool, optional: bool) -> AlpmPackage {
    AlpmPackage {
        name: name.to_string(),
        version: "1.0-1".to_string(),
        desc: Some(format!("About {}", name)),
        url: Some("https://example.org".to_string()),
        licenses: vec!["MIT".to_string()],
        groups: Vec::new(),
        depends: vec!["glibc".to_string()],
        optdepends: Vec::new(),
        provides: Vec::new(),
        conflicts: Vec::new(),
        replaces: Vec::new(),
        isize: 4096,
        download_size: -1,
        build_date: 1_700_000_000,
        install_date: Some(i64::MAX),
        packager: None,
        arch: None,
        reason,
        required,
        optional,
    }
}

#[test]
fn the_database_has_to_be_there() {
    let b = AlpmBackend::new(true).unwrap();
    assert_eq!(b.config.root, "/");
    assert_eq!(b.config.dbpath, "/var/lib/pacman");
    assert_eq!(b.config.cache_dirs, vec!["/var/cache/pacman/pkg"]);
    assert_eq!(b.config.hook_dirs, vec!["/etc/pacman.d/hooks", "/usr/share/libalpm/hooks"]);
    assert_eq!(b.config.gpgdir, "/etc/pacman.d/gnupg");
    assert_eq!(b.config.logfile, "/var/log/pacman.log");
    assert_eq!(b.cache_manager.cache_dirs, b.config.cache_dirs);
    match AlpmBackend::new(false) {
        Err(Error::DatabaseError(s)) => assert_eq!(s, "Database path does not exist: /var/lib/pacman"),
        other => panic!("{:?}", other),
    }
    let mut config = AlpmConfig::default();
    config.dbpath = "/elsewhere".to_string();
    match AlpmBackend::with_config(config, false) {
        Err(Error::DatabaseError(s)) => assert_eq!(s, "Database path does not exist: /elsewhere"),
        other => panic!("{:?}", other),
    }
}

fn config(architecture: &str) -> PacmanConfig {
    PacmanConfig {
        architecture: architecture.to_string(),
        repos: vec![RepoConfig {
            name: "core".to_string(),
            servers: vec!["https://m/$repo/os/$arch".to_string(), "https://n/$arch/$arch".to_string()],
        }],
    }
}

#[test]
fn servers_are_filled_in() {
    assert_eq!(resolve_arch(&config(" "), "x86_64"), "x86_64");
    assert_eq!(resolve_arch(&config("AUTO"), "x86_64"), "x86_64");
    assert_eq!(resolve_arch(&config(" aarch64 "), "x86_64"), "aarch64");
    assert_eq!(expand_repo_vars("$repo/$arch/$repo", "core", "any"), "core/any/core");
    assert_eq!(expand_repo_vars("$repo", "$arch", "any"), "any");
    let repos = repo_configs(&Some(config("auto")), "x86_64");
    assert_eq!(repos.len(), 1);
    assert_eq!(repos[0].servers, vec!["https://m/core/os/x86_64", "https://n/x86_64/x86_64"]);
    assert!(repo_configs(&None, "x86_64").is_empty());
    assert_eq!(parse_pacman_repos(&Some(config("auto"))), vec!["core"]);
    assert!(parse_pacman_repos(&None).is_empty());
}

#[test]
fn orphans_are_dependencies_that_nothing_needs() {
    assert!(is_orphan(&package("a", InstallReason::Dependency, false, false)));
    assert!(!is_orphan(&package("a", InstallReason::Dependency, true, false)));
    assert!(!is_orphan(&package("a", InstallReason::Dependency, false, true)));
    assert!(!is_orphan(&package("a", InstallReason::Explicit, false, false)));
    let local = vec![package("a", InstallReason::Dependency, false, false), package("b", InstallReason::Explicit, false, false)];
    let all = list_installed(&local);
    assert_eq!(all[0].status, PackageStatus::Orphan);
    assert_eq!(all[1].status, PackageStatus::Installed);
    assert_eq!(all[1].repository, "local");
    assert_eq!(all[1].description, "About b");
    assert_eq!(all[1].backend, PackageBackend::Pacman);
    let orphans = list_orphans(&local);
    assert_eq!(orphans.len(), 1);
    assert_eq!(orphans[0].name, "a");
    assert_eq!(orphans[0].status, PackageStatus::Orphan);
}

#[test]
fn dates_are_those_of_chrono() {
    let edges = [-8_334_601_228_800i64, 8_210_266_876_799];
    let mut all = vec![0i64, 1, -1, 1_700_000_000, i64::MIN, i64::MAX];
    for e in edges {
        all.extend([e - 1, e, e + 1]);
    }
    for ts in all {
        let wanted = chrono::DateTime::from_timestamp(ts, 0).unwrap_or_default().timestamp();
        assert_eq!(to_utc(ts), wanted, "{}", ts);
    }
    assert_eq!(to_utc(8_210_266_876_799), 8_210_266_876_799);
    assert_eq!(to_utc(8_210_266_876_800), 0);
}

fn dbs() -> Vec<SyncDb> {
    vec![
        SyncDb {
            name: "core".to_string(),
            packages: vec![package("Vim", InstallReason::Explicit, false, false)],
        },
        SyncDb {
            name: "extra".to_string(),
            packages: vec![
                package("gvim", InstallReason::Explicit, false, false),
                package("other", InstallReason::Explicit, false, false),
            ],
        },
    ]
}

#[test]
fn databases_are_searched() {
    let mut installed = package("gvim", InstallReason::Explicit, false, false);
    installed.version = "0.9".to_string();
    let found = search(&dbs(), &vec![installed], "VIM");
    assert_eq!(found.len(), 2);
    assert_eq!(found[0].name, "Vim");
    assert_eq!(found[0].repository, "core");
    assert!(!found[0].installed);
    assert!(found[0].installed_version.is_none());
    assert_eq!(found[1].name, "gvim");
    assert!(found[1].installed);
    assert_eq!(found[1].installed_version.as_ref().map(|v| v.text.as_str()), Some("0.9"));
    assert_eq!(search(&dbs(), &Vec::new(), "about other").len(), 1);
    assert!(search(&dbs(), &Vec::new(), "nothing").is_empty());
}

#[test]
fn details_come_from_the_local_database_first() {
    let local = vec![package("Vim", InstallReason::Dependency, true, false)];
    let info = get_package_info(&dbs(), &local, "Vim").unwrap();
    assert_eq!(info.package.repository, "local");
    assert_eq!(info.package.status, PackageStatus::Installed);
    assert_eq!(info.reason, Some(InstallReason::Dependency));
    assert_eq!(info.install_date, Some(0));
    assert_eq!(info.build_date, Some(1_700_000_000));
    assert_eq!(info.installed_size, 4096);
    assert_eq!(info.download_size, u64::MAX);
    assert_eq!(info.arch, "any");
    assert_eq!(info.licenses, vec!["MIT"]);
    assert_eq!(info.depends, vec!["glibc"]);
    let info = get_package_info(&dbs(), &local, "gvim").unwrap();
    assert_eq!(info.package.repository, "extra");
    assert_eq!(info.package.status, PackageStatus::Available);
    assert_eq!(info.reason, None);
    assert_eq!(info.install_date, None);
    match get_package_info(&dbs(), &local, "missing") {
        Err(Error::PackageNotFound(s)) => assert_eq!(s, "missing"),
        other => panic!("{:?}", other),
    }
    assert_eq!(package_info_from_sync(&local[0], "r").package.repository, "r");
}

#[test]
fn the_first_newer_version_is_the_update() {
    let candidate = |repository: &str, version: &str, newer: bool| Candidate {
        repository: repository.to_string(),
        version: version.to_string(),
        download_size: 10,
        newer,
    };
    let compared = |name: &str, candidates: Vec<Candidate>| Compared {
        name: name.to_string(),
        version: "1".to_string(),
        candidates,
    };
    let updates = list_updates(&vec![
        compared("a", vec![candidate("core", "1", false), candidate("extra", "2", true), candidate("more", "3", true)]),
        compared("b", vec![candidate("core", "1", false)]),
        compared("c", vec![]),
    ]);
    assert_eq!(updates.len(), 1);
    assert_eq!(updates[0].name, "a");
    assert_eq!(updates[0].current_version.text, "1");
    assert_eq!(updates[0].new_version.text, "2");
    assert_eq!(updates[0].repository, "extra");
    assert_eq!(updates[0].download_size, 10);
}

#[test]
fn operations_need_privileges() {
    let b = AlpmBackend::new(true).unwrap();
    assert_eq!(b.source_id(), "pacman");
    assert_eq!(b.display_name(), "Pacman");
    assert_eq!(b.work(OperationKind::CleanCache), Work::CleanCache(3));
    assert_eq!(b.work(OperationKind::RemoveOrphans), Work::ListOrphans);
    assert_eq!(b.work(OperationKind::Install), Work::Nothing);
    let run = |kind: OperationKind, done: Done| {
        let mut o = Operation::install(vec!["vim".to_string()], PackageBackend::Pacman);
        o.kind = kind;
        b.execute(o, done, 5)
    };
    for kind in [
        OperationKind::Install,
        OperationKind::Remove,
        OperationKind::RemoveWithDeps,
        OperationKind::Update,
        OperationKind::SystemUpgrade,
    ] {
        let r = run(kind, Done::Nothing).unwrap();
        assert_eq!(r.status, OperationStatus::Failed);
        assert_eq!(r.error.as_deref(), Some("Package operations require root privileges"));
        assert_eq!(r.duration_ms, 5);
    }
    let r = run(OperationKind::SyncDatabases, Done::Nothing).unwrap();
    assert_eq!(r.error.as_deref(), Some("Database sync requires root privileges"));
    assert!(run(OperationKind::CleanCache, Done::Cleaned(Ok(7))).unwrap().is_success());
    let e = run(OperationKind::CleanCache, Done::Cleaned(Err(Error::Io("x".to_string()))));
    assert!(matches!(e, Err(Error::Io(s)) if s == "x"));
    assert!(run(OperationKind::RemoveOrphans, Done::Orphans(Ok(Vec::new()))).unwrap().is_success());
    let orphans = list_orphans(&vec![package("a", InstallReason::Dependency, false, false)]);
    let r = run(OperationKind::RemoveOrphans, Done::Orphans(Ok(orphans))).unwrap();
    assert_eq!(r.error.as_deref(), Some("Removing orphans requires root privileges"));
    let e = run(OperationKind::RemoveOrphans, Done::Orphans(Err(Error::Other("y".to_string()))));
    assert!(matches!(e, Err(Error::Other(s)) if s == "y"));
}
