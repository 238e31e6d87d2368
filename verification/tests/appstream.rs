use flate2::write::GzEncoder;
use flate2::Compression;
use std::io::Write;
use xpm::appstream::{
    build_flatpak_name_map, extract_first_name, extract_tag_content, parse_appstream_for_category,
    parse_appstream_xml, AppMap,
};
use xpm::text::{chars_of, text_of};

fn gzip(bytes: &[u8]) -> Vec<u8> {
    let mut e = GzEncoder::new(Vec::new(), Compression::default());
    e.write_all(bytes).unwrap();
    e.finish().unwrap()
}

const CATALOGUE: &str = "<components>\n\
  <component type=\"desktop-application\">\n\
    <id>org.gimp.GIMP</id>\n\
    <name>GIMP</name>\n\
    <name xml:lang=\"de\">Bild</name>\n\
    <summary>Create images</summary>\n\
    <categories>\n\
      <category>Graphics</category>\n\
      <category>2DGraphics</category>\n\
    </categories>\n\
  </component>\n\
  <component type=\"runtime\">\n\
    <id>org.kde.Platform</id>\n\
  </component>\n\
  <component type=\"desktop-application\">\n\
    <id>org.vim.Vim</id>\n\
    <name>Vim</name>\n\
    <categories>\n\
      <category>Development</category>\n\
    </categories>\n\
  </component>\n\
</components>\n";

#[test]
fn tags_have_contents() {
    let tag = |xml: &str, tag: &str| extract_tag_content(&chars_of(xml), tag).map(|v| text_of(&v));
    assert_eq!(tag("<a><id>x.y</id></a>", "id"), Some("x.y".to_string()));
    assert_eq!(tag("<id>1</id><id>2</id>", "id"), Some("1".to_string()));
    assert_eq!(tag("</id><id></id>", "id"), Some(String::new()));
    assert_eq!(tag("<id>open", "id"), None);
    assert_eq!(tag("<id a=\"b\">x</id>", "id"), None);
    let name = |xml: &str| extract_first_name(&chars_of(xml)).map(|v| text_of(&v));
    assert_eq!(name("<name xml:lang=\"de\">B</name><name>A</name>"), Some("A".to_string()));
    assert_eq!(name("<name xml:lang=\"de\">B</name>"), None);
}

#[test]
fn catalogues_name_applications() {
    let mut map = AppMap::new();
    map.parse_appstream_names(CATALOGUE);
    assert_eq!(map.get("org.gimp.gimp"), Some(("GIMP".to_string(), "Create images".to_string())));
    assert_eq!(map.get("org.vim.vim"), Some(("Vim".to_string(), String::new())));
    assert_eq!(map.get("org.kde.platform"), None);
    map.parse_appstream_names("<component type=\"desktop\"><id>org.vim.Vim</id><name>Vi</name></component>");
    assert_eq!(map.get("org.vim.vim"), Some(("Vi".to_string(), String::new())));
    map.parse_appstream_names("<component type=\"desktop\"><id>open</id><name>Open</name>");
    assert_eq!(map.get("open"), None);
}

#[test]
fn console_applications_are_named_too() {
    let mut map = AppMap::new();
    map.parse_appstream_names(
        "<component type=\"console-application\"><id>A</id><name>One</name></component>\
         <component type=\"addon\"><id>B</id><name>Two</name></component>\
         <component type=\"desktop-application\"><id>C</id><name>Three</name></component>\
         <component type=\"console\"><id>D</id><name>Four</name><summary>S</summary></component>",
    );
    assert_eq!(map.get("a"), Some(("One".to_string(), String::new())));
    assert_eq!(map.get("b"), None);
    assert_eq!(map.get("c"), Some(("Three".to_string(), String::new())));
    assert_eq!(map.get("d"), Some(("Four".to_string(), "S".to_string())));
}

#[test]
fn compressed_catalogues_are_read() {
    let map = build_flatpak_name_map(&vec![gzip(CATALOGUE.as_bytes()), b"no gzip".to_vec()]);
    assert_eq!(map.get("org.gimp.gimp"), Some(("GIMP".to_string(), "Create images".to_string())));
    let mut bad = CATALOGUE.as_bytes().to_vec();
    bad.push(0xff);
    let map = build_flatpak_name_map(&vec![gzip(&bad)]);
    assert_eq!(map.get("org.gimp.gimp"), None);
    let mut cut = gzip(CATALOGUE.as_bytes());
    cut.truncate(cut.len() - 8);
    let map = build_flatpak_name_map(&vec![cut]);
    assert_eq!(map.get("org.gimp.gimp"), None);
}

#[test]
fn categories_list_their_applications() {
    let found = parse_appstream_for_category(&gzip(CATALOGUE.as_bytes()), "Graphics");
    assert_eq!(found.len(), 1);
    assert_eq!(found[0].name, "org.gimp.GIMP");
    assert_eq!(found[0].display_name, "GIMP");
    assert_eq!(found[0].description, "Create images");
    assert_eq!(found[0].repository, "flathub");
    assert_eq!(found[0].backend, 1);
    assert!(!found[0].installed);
    let found = parse_appstream_for_category(&gzip(CATALOGUE.as_bytes()), "Development");
    assert_eq!(found.len(), 1);
    assert_eq!(found[0].name, "org.vim.Vim");
    assert!(parse_appstream_for_category(&gzip(CATALOGUE.as_bytes()), "Games").is_empty());
    assert!(parse_appstream_for_category(b"no gzip", "Graphics").is_empty());
}

#[test]
fn lines_that_are_no_text_are_passed_over() {
    let mut bytes = Vec::new();
    for line in CATALOGUE.lines() {
        bytes.extend(line.as_bytes());
        bytes.extend(b"\r\n\xff\xfe\n");
    }
    let found = parse_appstream_for_category(&gzip(&bytes), "Graphics");
    assert_eq!(found.len(), 1);
    assert_eq!(found[0].display_name, "GIMP");
}

#[test]
fn only_the_first_name_counts() {
    let lines: Vec<Vec<char>> = [
        "<component type=\"desktop-application\">",
        "<id>a</id>",
        "<id>b</id>",
        "<name>First</name>",
        "<name>Second</name>",
        "<category>Outside</category>",
        "<categories>",
        "<category>In</category>",
        "</component>",
        "<id>c</id>",
        "</component>",
    ]
    .iter()
    .map(|l| chars_of(l))
    .collect();
    let found = parse_appstream_xml(&lines, "In");
    assert_eq!(found.len(), 1);
    assert_eq!(found[0].name, "b");
    assert_eq!(found[0].display_name, "First");
    assert!(parse_appstream_xml(&lines, "Outside").is_empty());
}
