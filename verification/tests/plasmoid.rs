use xpm::plasmoid::{
    list_plasmoids_with_updates, list_version, parse_plasmoid_desktop, parse_plasmoid_json,
    parse_store_versions, plasmoid_to_ui, version_is_newer, Metadata, Plasmoid, PlasmoidInfo,
};

fn some(s: &str) -> Option<String> {
    Some(s.to_string())
}

fn shown(p: &PlasmoidInfo) -> (String, String, String, String) {
    (p.id.clone(), p.name.clone(), p.version.clone(), p.description.clone())
}

fn texts(a: &str, b: &str, c: &str, d: &str) -> (String, String, String, String) {
    (a.to_string(), b.to_string(), c.to_string(), d.to_string())
}

#[test]
fn metadata_documents_are_read() {
    let doc = "{\"KPlugin\": {\"Id\": \"org.x\", \"Name\": \"X \\u00fc\", \"Version\": \"1.2\", \"Description\": \"D\"}}";
    assert_eq!(shown(&parse_plasmoid_json(&some(doc))), texts("org.x", "X ü", "1.2", "D"));
    assert_eq!(
        shown(&parse_plasmoid_json(&some("{\"KPlugin\": {\"Version\": 3}}"))),
        texts("", "Unknown", "unknown", "")
    );
    for bad in ["", "{", "[]", "{\"Other\": 1}"] {
        assert_eq!(shown(&parse_plasmoid_json(&some(bad))), texts("", "Unknown", "unknown", ""));
    }
    assert_eq!(shown(&parse_plasmoid_json(&None)), texts("", "Unknown", "unknown", ""));
}

#[test]
fn metadata_desktop_files_are_read() {
    let text = "[Desktop Entry]\nName=Clock\nName[de]=Uhr\nComment=Time\nX-KDE-PluginInfo-Version=2.0\n\
                X-KDE-PluginInfo-Name=org.clock\n";
    assert_eq!(shown(&parse_plasmoid_desktop(&some(text))), texts("org.clock", "Clock", "2.0", "Time"));
    assert_eq!(shown(&parse_plasmoid_desktop(&some(""))), texts("", "Unknown", "unknown", ""));
    assert_eq!(shown(&parse_plasmoid_desktop(&None)), texts("", "Unknown", "unknown", ""));
}

/// Whether a version is newer, by the numbers in it.
fn plainly(store: &str, current: &str) -> bool {
    let numbers = |s: &str| -> Vec<u128> {
        s.split(|c: char| !c.is_ascii_digit()).filter_map(|s| s.parse().ok()).collect()
    };
    let (mut a, mut b) = (numbers(store), numbers(current));
    let n = a.len().max(b.len());
    a.resize(n, 0);
    b.resize(n, 0);
    a > b
}

#[test]
fn versions_are_compared_by_their_numbers() {
    assert!(version_is_newer("1.10", "1.9"));
    assert!(!version_is_newer("1.9", "1.10"));
    assert!(!version_is_newer("1.0", "1"));
    assert!(!version_is_newer("1", "1.0.0"));
    assert!(version_is_newer("v2", "1.99"));
    assert!(version_is_newer("1.0.1", "1"));
    assert!(!version_is_newer("", ""));
    assert!(!version_is_newer("unknown", "0"));
    assert!(version_is_newer("20240102000000", "20240101000000"));
    assert!(!version_is_newer("20240101000000", "20240102000000"));
    assert!(version_is_newer("1.20240102000000", "1.4294967295"));
    assert!(!version_is_newer("007", "7"));
    assert!(version_is_newer("0010", "9"));
    assert!(version_is_newer(
        "340282366920938463463374607431768211457",
        "340282366920938463463374607431768211456"
    ));
    let all = ["", "1", "1.0", "1.2", "2", "1.2.3", "v1-2", "99999999999.5", "099999999999.6", "4294967295", "a1b2c0", "0.0.1"];
    for a in all {
        assert!(!version_is_newer(a, a));
        for b in all {
            assert_eq!(version_is_newer(a, b), plainly(a, b), "{} {}", a, b);
            assert!(!(version_is_newer(a, b) && version_is_newer(b, a)));
            for c in all {
                if version_is_newer(a, b) && version_is_newer(b, c) {
                    assert!(version_is_newer(a, c));
                }
            }
        }
    }
}

#[test]
fn store_versions_are_read() {
    let response = b"{\"ocs\": {\"data\": [{\"name\": \"A\", \"version\": \"1\"}, {\"name\": \"\", \"version\": \"2\"}, \
                     {\"name\": \"B\"}, {\"name\": \"C\", \"version\": \"3\"}]}}"
        .to_vec();
    assert_eq!(
        parse_store_versions(&Some(response)),
        vec![("A".to_string(), "1".to_string()), ("C".to_string(), "3".to_string())]
    );
    assert!(parse_store_versions(&Some(b"{\"ocs\": []}".to_vec())).is_empty());
    assert!(parse_store_versions(&Some(b"\xff".to_vec())).is_empty());
    assert!(parse_store_versions(&None).is_empty());
    let mut v = Vec::new();
    list_version(&mut v, some("A"), some(""));
    list_version(&mut v, None, some("1"));
    assert!(v.is_empty());
    list_version(&mut v, some("A"), some("1"));
    assert_eq!(v, vec![("A".to_string(), "1".to_string())]);
}

fn info(name: &str, version: &str) -> PlasmoidInfo {
    PlasmoidInfo {
        id: "org.p".to_string(),
        name: name.to_string(),
        version: version.to_string(),
        description: "D".to_string(),
    }
}

#[test]
fn plasmoids_of_the_user_have_updates() {
    let store = vec![("My Clock".to_string(), "2.0".to_string()), ("My Clock".to_string(), "3.0".to_string())];
    let (row, update) = plasmoid_to_ui(&info("My Clock", "1.0"), true, &store);
    assert_eq!(row.name, "org.p");
    assert_eq!(row.display_name, "My Clock");
    assert_eq!(row.version, "1.0");
    assert_eq!(row.repository, "kde-store");
    assert_eq!(row.backend, 3);
    assert_eq!(row.url, "https://store.kde.org/search?search=My+Clock");
    assert!(row.installed);
    assert!(row.has_update);
    assert_eq!(update.unwrap().version, "1.0 → 2.0");
    let (row, update) = plasmoid_to_ui(&info("My Clock", "1.0"), false, &store);
    assert!(!row.has_update);
    assert_eq!(row.repository, "system");
    assert!(update.is_none());
    assert!(plasmoid_to_ui(&info("My Clock", "2.0"), true, &store).1.is_none());
    assert!(plasmoid_to_ui(&info("", "1.0"), true, &vec![(String::new(), "9".to_string())]).1.is_none());
}

#[test]
fn plasmoids_are_listed() {
    let found = vec![
        Plasmoid {
            place: "/home/a/.local/share/plasma/plasmoids".to_string(),
            metadata: Metadata::Document(some("{\"KPlugin\": {\"Id\": \"a\", \"Name\": \"A\", \"Version\": \"1\"}}")),
        },
        Plasmoid {
            place: "/usr/share/plasma/plasmoids".to_string(),
            metadata: Metadata::Desktop(some("Name=B\nX-KDE-PluginInfo-Name=b\n")),
        },
        Plasmoid {
            place: "/home/a/.local/share/plasma/plasmoids".to_string(),
            metadata: Metadata::Missing("dir".to_string()),
        },
    ];
    let store = vec![("A".to_string(), "2".to_string()), ("B".to_string(), "2".to_string())];
    let (all, updates) = list_plasmoids_with_updates(&found, &store);
    let names: Vec<&str> = all.iter().map(|p| p.name.as_str()).collect();
    assert_eq!(names, vec!["a", "b", "dir"]);
    assert_eq!(updates.len(), 1);
    assert_eq!(updates[0].name, "a");
    assert_eq!(updates[0].version, "1 → 2");
}
