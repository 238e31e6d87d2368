use flate2::write::GzEncoder;
use flate2::Compression;
use std::io::Write;
use xpm::desktop::{arrange, load_category_packages, parse_desktop_file, MenuFile};
use xpm::ui::{PackageData, UiMessage};

fn menu(dir: &str, name: &str, content: &str) -> MenuFile {
    MenuFile {
        path: format!("{}/{}", dir, name),
        file_name: name.to_string(),
        content: content.to_string(),
    }
}

fn row(name: &str, display_name: &str) -> PackageData {
    PackageData::plain(
        name.to_string(),
        display_name.to_string(),
        String::new(),
        String::new(),
        "native".to_string(),
        0,
        true,
        false,
    )
}

#[test]
fn menu_files_are_applications() {
    let f = menu(
        "/usr/share/applications",
        "org.kde.kate.desktop",
        "[Desktop Entry]\nName=Kate\nName[de]=Kate-de\nGenericName=Editor\nComment=Edit text\nCategories=Qt;Utility;\n",
    );
    let p = parse_desktop_file(&f, "Utility").unwrap();
    assert_eq!(p.name, "org.kde.kate");
    assert_eq!(p.display_name, "Kate");
    assert_eq!(p.description, "Edit text");
    assert_eq!(p.repository, "native");
    assert_eq!(p.backend, 0);
    assert!(p.installed);
    assert!(parse_desktop_file(&f, "Game").is_none());
    assert!(parse_desktop_file(&f, "Util").is_none());
    assert!(parse_desktop_file(&f, "").is_some());
}

#[test]
fn flatpaks_are_known_by_their_path() {
    let f = menu(
        "/var/lib/flatpak/exports/share/applications",
        "org.gimp.GIMP.desktop",
        "Name=GIMP\nGenericName=Images\nCategories=Graphics",
    );
    let p = parse_desktop_file(&f, "Graphics").unwrap();
    assert_eq!(p.backend, 1);
    assert_eq!(p.repository, "flathub");
    assert_eq!(p.description, "Images");
}

#[test]
fn hidden_files_are_left_out() {
    for content in [
        "Name=A\nCategories=X;\nNoDisplay=true\n",
        "Name=A\nCategories=X;\nHidden=true\n",
        "Categories=X;\n",
        "Name[de]=A\nCategories=X;\n",
        "Name=A\n",
    ] {
        assert!(parse_desktop_file(&menu("/d", "a.desktop", content), "X").is_none(), "{}", content);
    }
    let content = "Name=A\nCategories=X;\nNoDisplay=false\n";
    assert_eq!(parse_desktop_file(&menu("/d", "a.desktop", content), "X").unwrap().description, "");
}

#[test]
fn rows_are_arranged() {
    let v = vec![row("b", "zebra"), row("a", "Apple"), row("a", "apple"), row("c", "Mango")];
    let r = arrange(&v);
    let names: Vec<&str> = r.iter().map(|p| p.display_name.as_str()).collect();
    assert_eq!(names, vec!["Apple", "Mango", "zebra"]);
    let v = vec![row("a", "One"), row("b", "Two"), row("a", "Zwei")];
    let r = arrange(&v);
    let names: Vec<&str> = r.iter().map(|p| p.display_name.as_str()).collect();
    assert_eq!(names, vec!["One", "Two"]);
    assert!(arrange(&Vec::new()).is_empty());
}

#[test]
fn categories_are_loaded() {
    let files = vec![
        menu("/usr/share/applications", "vim.desktop", "Name=Vim\nCategories=Development;\n"),
        menu("/usr/share/applications", "doc.txt", "Name=Doc\nCategories=Development;\n"),
    ];
    let xml = "<component type=\"desktop-application\">\n<id>org.ide</id>\n<name>An IDE</name>\n\
               <categories>\n<category>Development</category>\n</categories>\n</component>\n";
    let mut e = GzEncoder::new(Vec::new(), Compression::fast());
    e.write_all(xml.as_bytes()).unwrap();
    let catalogue = e.finish().unwrap();
    match load_category_packages(&files, &vec![catalogue], "Development") {
        UiMessage::CategoryPackages(v) => {
            let names: Vec<&str> = v.iter().map(|p| p.display_name.as_str()).collect();
            assert_eq!(names, vec!["An IDE", "Vim"]);
        }
        other => panic!("{:?}", other),
    }
}
