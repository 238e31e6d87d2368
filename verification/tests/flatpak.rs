use xpm::error::Error;
use xpm::flatpak::{
    display_name, get_package_info, list_installed, list_updates, search, FlatpakBackend,
    InstalledRef, Installation, Remote, RemoteRef,
};
use xpm::operation::{Operation, OperationKind};
use xpm::package::{PackageBackend, PackageStatus};
use xpm::source::{Done, PackageSource, Work};

fn some(s: &str) -> Option<String> {
    Some(s.to_string())
}

fn installed(name: &str, is_app: bool) -> InstalledRef {
    InstalledRef {
        is_app,
        name: some(name),
        arch: some("x86_64"),
        branch: some("stable"),
        appdata_version: some("2.0"),
        appdata_name: some("Shown"),
        origin: some("flathub"),
        installed_size: 99,
    }
}

fn remote(name: &str, refs: Vec<RemoteRef>) -> Remote {
    Remote { name: name.to_string(), refs: Some(refs) }
}

fn offer(name: &str, branch: Option<&str>) -> RemoteRef {
    RemoteRef {
        is_app: true,
        name: some(name),
        arch: some("x86_64"),
        branch: branch.map(|b| b.to_string()),
    }
}

fn installations() -> Vec<Installation> {
    vec![
        Installation {
            installed: Some(vec![installed("org.b.Beta", true), installed("org.run.Time", false)]),
            outdated: Some(vec![installed("org.b.Beta", true)]),
            remotes: vec![
                remote("flathub", vec![offer("org.z.alpha", None), offer("org.b.Beta", Some("stable"))]),
                Remote { name: "broken".to_string(), refs: None },
            ],
        },
        Installation {
            installed: None,
            outdated: None,
            remotes: vec![remote(
                "other",
                vec![
                    offer("org.b.Beta", Some("beta")),
                    RemoteRef { is_app: false, ..offer("org.run.Time", None) },
                    RemoteRef { name: None, ..offer("x", None) },
                    offer("com.gamma", Some("1")),
                ],
            )],
        },
    ]
}

#[test]
fn installed_applications_are_listed() {
    let v = list_installed(&installations());
    assert_eq!(v.len(), 1);
    assert_eq!(v[0].name, "org.b.Beta");
    assert_eq!(v[0].version.text, "2.0");
    assert_eq!(v[0].description, "Shown");
    assert_eq!(v[0].repository, "flathub");
    assert_eq!(v[0].backend, PackageBackend::Flatpak);
    assert_eq!(v[0].status, PackageStatus::Installed);
}

#[test]
fn versions_fall_back_to_the_branch() {
    let mut bare = installed("org.a", true);
    bare.appdata_version = None;
    bare.appdata_name = None;
    bare.origin = None;
    let mut barer = installed("org.b", true);
    barer.appdata_version = None;
    barer.branch = None;
    barer.name = None;
    let v = list_installed(&vec![Installation {
        installed: Some(vec![bare, barer]),
        outdated: None,
        remotes: Vec::new(),
    }]);
    assert_eq!(v[0].version.text, "stable");
    assert_eq!(v[0].description, "");
    assert_eq!(v[0].repository, "");
    assert_eq!(v[1].version.text, "unknown");
    assert_eq!(v[1].name, "");
}

#[test]
fn outdated_applications_are_updates() {
    let v = list_updates(&installations());
    assert_eq!(v.len(), 1);
    assert_eq!(v[0].name, "org.b.Beta");
    assert_eq!(v[0].current_version.text, "2.0");
    assert_eq!(v[0].new_version.text, "2.0");
    assert_eq!(v[0].download_size, 99);
}

#[test]
fn every_application_is_available_once() {
    let v = FlatpakBackend::new().unwrap().list_available(&installations());
    let shown: Vec<(&str, &str, &str, &str)> = v
        .iter()
        .map(|p| (p.name.as_str(), p.description.as_str(), p.version.text.as_str(), p.repository.as_str()))
        .collect();
    assert_eq!(
        shown,
        vec![
            ("org.z.alpha", "alpha", "stable", "flathub"),
            ("org.b.Beta", "Beta", "stable", "flathub"),
            ("com.gamma", "gamma", "1", "other"),
        ]
    );
    assert_eq!(v[1].status, PackageStatus::Installed);
    assert_eq!(v[0].status, PackageStatus::Available);
}

#[test]
fn display_names_are_the_last_part() {
    assert_eq!(display_name("org.gimp.GIMP"), "GIMP");
    assert_eq!(display_name("plain"), "plain");
    assert_eq!(display_name("ends."), "");
    assert_eq!(display_name(""), "");
}

#[test]
fn searches_find_each_name_once() {
    let v = search(&installations(), "B");
    let shown: Vec<(&str, bool)> = v.iter().map(|r| (r.name.as_str(), r.installed)).collect();
    assert_eq!(shown, vec![("org.b.Beta", true)]);
    assert_eq!(v[0].description, "org.b.Beta");
    assert_eq!(v[0].version.text, "stable");
    let all = search(&installations(), "");
    let names: Vec<&str> = all.iter().map(|r| r.name.as_str()).collect();
    assert_eq!(names, vec!["com.gamma", "org.b.Beta", "org.z.alpha"]);
    assert!(search(&installations(), "time").is_empty());
}

#[test]
fn details_are_those_of_what_is_installed() {
    let info = get_package_info(&installations(), "org.run.Time").unwrap();
    assert_eq!(info.package.name, "org.run.Time");
    assert_eq!(info.installed_size, 99);
    assert_eq!(info.arch, "x86_64");
    assert_eq!(info.download_size, 0);
    match get_package_info(&installations(), "com.gamma") {
        Err(Error::PackageNotFound(s)) => assert_eq!(s, "com.gamma"),
        other => panic!("{:?}", other),
    }
}

#[test]
fn flatpak_operations() {
    let b = FlatpakBackend::new().unwrap();
    assert_eq!(b.source_id(), "flatpak");
    assert_eq!(PackageSource::display_name(&b), "Flatpak");
    assert_eq!(b.work(OperationKind::CleanCache), Work::CleanCache(0));
    assert_eq!(b.work(OperationKind::RemoveOrphans), Work::Nothing);
    let run = |kind: OperationKind, done: Done| {
        let mut o = Operation::install(vec!["a".to_string()], PackageBackend::Flatpak);
        o.kind = kind;
        b.execute(o, done, 1)
    };
    let r = run(OperationKind::Install, Done::Nothing).unwrap();
    assert_eq!(r.error.as_deref(), Some("Flatpak operations require further implementation"));
    assert!(run(OperationKind::SyncDatabases, Done::Nothing).unwrap().is_success());
    assert!(run(OperationKind::RemoveOrphans, Done::Nothing).unwrap().is_success());
    assert!(run(OperationKind::CleanCache, Done::Cleaned(Ok(0))).unwrap().is_success());
    assert!(run(OperationKind::CleanCache, Done::Cleaned(Err(Error::Other("x".to_string())))).is_err());
}
