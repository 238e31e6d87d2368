use xpm::names::{build_desktop_name_map, humanize_package_name, is_desktop_file, stem_of, DesktopFile, NameMap};
use xpm::text::{chars_of, text_of};

fn file(name: &str, content: &str) -> DesktopFile {
    DesktopFile { file_name: Some(name.to_string()), content: content.to_string() }
}

#[test]
fn names_are_made_readable() {
    let none = NameMap::new();
    assert_eq!(humanize_package_name("visual-studio_code", &none), "Visual Studio Code");
    assert_eq!(humanize_package_name("vim", &none), "Vim");
    assert_eq!(humanize_package_name("a--b", &none), "A  B");
    assert_eq!(humanize_package_name("", &none), "");
    assert_eq!(humanize_package_name("ßtest-ñandu", &none), "SStest Ñandu");
    assert_eq!(humanize_package_name("7zip", &none), "7zip");
}

#[test]
fn known_names_are_used() {
    let mut map = NameMap::new();
    map.insert("firefox".to_string(), "Firefox Web Browser".to_string());
    assert_eq!(humanize_package_name("Firefox", &map), "Firefox Web Browser");
    assert_eq!(map.get("firefox"), Some("Firefox Web Browser".to_string()));
    assert_eq!(map.get("Firefox"), None);
    map.insert("firefox".to_string(), "Other".to_string());
    assert_eq!(map.get("firefox"), Some("Other".to_string()));
}

#[test]
fn stems_are_those_of_paths() {
    for name in ["a.desktop", "org.kde.dolphin.desktop", "noext", ".hidden", "a.", ".a.b", "..b", "x..y"] {
        let wanted = std::path::Path::new(name).file_stem().unwrap().to_str().unwrap();
        assert_eq!(text_of(&stem_of(&chars_of(name))), wanted, "{}", name);
    }
}

#[test]
fn desktop_files_are_known_by_their_extension() {
    for name in ["a.desktop", "a.b.desktop", "desktop", ".desktop", "a.desktop.bak", "a.Desktop", "..desktop"] {
        let wanted = std::path::Path::new(name).extension().map_or(false, |e| e == "desktop");
        assert_eq!(is_desktop_file(name), wanted, "{}", name);
    }
}

#[test]
fn launchers_name_files_and_programs() {
    let files = vec![
        file("org.gimp.GIMP.desktop", "[Desktop Entry]\nName=GIMP\nName[de]=GIMP-de\nExec=/usr/bin/gimp-2.10 %U\n"),
        file("hidden.desktop", "Name=Hidden\nExec=hidden\nNoDisplay=true\n"),
        file("nameless.desktop", "Exec=nameless\n"),
        file("other.desktop", "Name=Other\nExec=gimp-2.10\n"),
        file("notes.txt", "Name=Notes\nExec=notes\n"),
    ];
    let map = build_desktop_name_map(&files, &None);
    assert_eq!(map.get("org.gimp.gimp"), Some("GIMP".to_string()));
    assert_eq!(map.get("gimp-2.10"), Some("GIMP".to_string()));
    assert_eq!(map.get("other"), Some("Other".to_string()));
    assert_eq!(map.get("hidden"), None);
    assert_eq!(map.get("nameless"), None);
    assert_eq!(map.get("notes"), None);
}

#[test]
fn owners_are_named_after_their_files() {
    let files = vec![file("Dolphin.desktop", "Name=Files\nExec=dolphin\n")];
    let listing = "Dolphin-KDE /usr/share/applications/Dolphin.desktop\n\
                   dolphin-kde /usr/bin/dolphin\n\
                   broken/usr/share/applications/dolphin.desktop\n\
                   none /usr/share/applications/missing.desktop\n\
                   later /usr/share/applications/Dolphin.desktop\n";
    let map = build_desktop_name_map(&files, &Some(listing.as_bytes().to_vec()));
    assert_eq!(map.get("dolphin-kde"), Some("Files".to_string()));
    assert_eq!(map.get("later"), Some("Files".to_string()));
    assert_eq!(map.get("none"), None);
    assert_eq!(map.get("broken"), None);
    assert_eq!(map.get("dolphin"), Some("Files".to_string()));
}

#[test]
fn a_listing_need_not_be_text() {
    let files = vec![file("a.desktop", "Name=A\n")];
    let listing = b"caf\xff /usr/share/applications/a.desktop\n".to_vec();
    let map = build_desktop_name_map(&files, &Some(listing));
    assert_eq!(map.get("caf\u{fffd}"), Some("A".to_string()));
}

#[test]
fn other_names_stay() {
    let mut map = NameMap::new();
    map.insert("vim".to_string(), "Vim".to_string());
    map.add_launcher(&file("a.desktop", "Name=A\nExec=vim\n"));
    assert_eq!(map.get("vim"), Some("Vim".to_string()));
    assert_eq!(map.get("a"), Some("A".to_string()));
}
