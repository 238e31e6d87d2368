//! The AppStream catalogues of Flatpak remotes.
use crate::bytes;
use crate::text;
use crate::ui;
use crate::ui::{PackageData, PackageDataView};
use vstd::hash_map::StringHashMap;
use vstd::prelude::*;
use vstd::string::*;
use vstd::utf8::*;

verus! {

broadcast use vstd::seq_lib::group_seq_properties;

/// What an application is called and what it is, by the lower case of its ID.
pub struct AppMap {
    map: StringHashMap<(String, String)>,
}

impl View for AppMap {
    type V = Map<Seq<char>, (Seq<char>, Seq<char>)>;

    closed spec fn view(&self) -> Map<Seq<char>, (Seq<char>, Seq<char>)> {
        self.map@.map_values(|p: (String, String)| (p.0@, p.1@))
    }
}

impl AppMap {
    /// No applications.
    pub fn new() -> (r: AppMap)
        ensures
            r@ == Map::<Seq<char>, (Seq<char>, Seq<char>)>::empty(),
    {
        let r = AppMap { map: StringHashMap::new() };
        assert(r@ =~= Map::<Seq<char>, (Seq<char>, Seq<char>)>::empty());
        r
    }

    /// Adds an application, in place of one that stood under the key before.
    pub fn insert(&mut self, key: String, name: String, summary: String)
        ensures
            final(self)@ == old(self)@.insert(key@, (name@, summary@)),
    {
        let ghost before = self@;
        self.map.insert(key, (name, summary));
        assert(self@ =~= before.insert(key@, (name@, summary@)));
    }

    /// The name and the summary of an application.
    pub fn get(&self, key: &str) -> (r: Option<(String, String)>)
        ensures
            match r {
                Some(p) => self@.contains_key(key@) && self@[key@] == (p.0@, p.1@),
                None => !self@.contains_key(key@),
            },
    {
        match self.map.get(key) {
            Some(p) => Some((p.0.clone(), p.1.clone())),
            None => None,
        }
    }
}

/// What stands in `xml` between the first `open` and the first `close` behind it.
pub open spec fn enclosed(xml: Seq<char>, open: Seq<char>, close: Seq<char>) -> Option<Seq<char>> {
    match text::find_from(xml, open, 0) {
        Some(a) => match text::find_from(xml, close, a + open.len()) {
            Some(b) => Some(xml.subrange(a + open.len(), b)),
            None => None,
        },
        None => None,
    }
}

/// The content of the first element `tag` without attributes.
pub open spec fn tag_content(xml: Seq<char>, tag: Seq<char>) -> Option<Seq<char>> {
    enclosed(xml, seq!['<'] + tag + seq!['>'], seq!['<', '/'] + tag + seq!['>'])
}

/// Extracts the content of a simple XML element.
pub fn extract_tag_content(xml: &[char], tag: &str) -> (r: Option<Vec<char>>)
    ensures
        text::content(r) == tag_content(xml@, tag@),
{
    let t = text::chars_of(tag);
    let mut open: Vec<char> = vec!['<'];
    text::extend(&mut open, t.as_slice());
    open.push('>');
    let mut close: Vec<char> = vec!['<', '/'];
    text::extend(&mut close, t.as_slice());
    close.push('>');
    assert(open@ =~= seq!['<'] + tag@ + seq!['>']);
    assert(close@ =~= seq!['<', '/'] + tag@ + seq!['>']);
    match text::find(xml, open.as_slice(), 0) {
        None => None,
        Some(a) => {
            assert(a + open@.len() <= xml.len());
            let from: usize = a + open.len();
            match text::find(xml, close.as_slice(), from) {
                None => None,
                Some(b) => Some(text::cut(xml, from, b)),
            }
        },
    }
}

/// Extracts the first name that has no language.
pub fn extract_first_name(xml: &[char]) -> (r: Option<Vec<char>>)
    ensures
        text::content(r) == tag_content(xml@, "name"@),
{
    extract_tag_content(xml, "name")
}

/// The names with that of one component, where it has an ID and a name.
pub open spec fn with_component(
    names: Map<Seq<char>, (Seq<char>, Seq<char>)>,
    component: Seq<char>,
) -> Map<Seq<char>, (Seq<char>, Seq<char>)> {
    match (tag_content(component, "id"@), tag_content(component, "name"@)) {
        (Some(id), Some(name)) => names.insert(
            text::lowercase(id),
            (
                name,
                match tag_content(component, "summary"@) {
                    Some(summary) => summary,
                    None => Seq::empty(),
                },
            ),
        ),
        _ => names,
    }
}

/// The place at or behind `pos` where the first component of a desktop or console
/// application starts.
pub open spec fn component_from(xml: Seq<char>, pos: int) -> Option<int> {
    let desktop = text::find_from(xml, "<component type=\"desktop"@, pos);
    let console = text::find_from(xml, "<component type=\"console"@, pos);
    match (desktop, console) {
        (Some(a), Some(b)) => Some(
            if a < b {
                a
            } else {
                b
            },
        ),
        (Some(a), None) => Some(a),
        (None, b) => b,
    }
}

/// The place at or behind `pos` where the first component of a desktop or console
/// application starts.
fn find_component(xml: &[char], pos: usize) -> (r: Option<usize>)
    requires
        pos <= xml@.len(),
    ensures
        text::position(r) == component_from(xml@, pos as int),
        r matches Some(a) ==> pos <= a <= xml@.len(),
{
    let desktop = text::chars_of("<component type=\"desktop");
    let console = text::chars_of("<component type=\"console");
    let a = text::find(xml, desktop.as_slice(), pos);
    let b = text::find(xml, console.as_slice(), pos);
    match (a, b) {
        (Some(x), Some(y)) => Some(
            if x < y {
                x
            } else {
                y
            },
        ),
        (Some(x), None) => Some(x),
        (None, y) => y,
    }
}

/// The names with those of the desktop and console components of `xml` from `pos` on.
pub open spec fn with_components(
    names: Map<Seq<char>, (Seq<char>, Seq<char>)>,
    xml: Seq<char>,
    pos: int,
) -> Map<Seq<char>, (Seq<char>, Seq<char>)>
    decreases xml.len() - pos,
{
    if pos < 0 || pos > xml.len() {
        names
    } else {
        match component_from(xml, pos) {
            Some(a) => match text::find_from(xml, "</component>"@, a) {
                Some(b) => if pos <= b && b + 12 <= xml.len() {
                    with_components(
                        with_component(names, xml.subrange(a, b + 12)),
                        xml,
                        b + 12,
                    )
                } else {
                    names
                },
                None => names,
            },
            None => names,
        }
    }
}

/// The names with those of a catalogue, whose gzip file holds `data`. One that cannot
/// be decoded to its end or is not UTF-8 adds none.
pub open spec fn with_catalogue(
    names: Map<Seq<char>, (Seq<char>, Seq<char>)>,
    decoded: (Seq<u8>, bool),
) -> Map<Seq<char>, (Seq<char>, Seq<char>)> {
    if decoded.1 && valid_utf8(decoded.0) {
        with_components(names, decode_utf8(decoded.0), 0)
    } else {
        names
    }
}

impl AppMap {
    /// Adds the application of one component.
    fn add_component(&mut self, component: &[char])
        ensures
            final(self)@ == with_component(old(self)@, component@),
    {
        match extract_tag_content(component, "id") {
            Some(id) => match extract_first_name(component) {
                Some(name) => {
                    let summary = match extract_tag_content(component, "summary") {
                        Some(s) => s,
                        None => Vec::new(),
                    };
                    let key = text::lower(id.as_slice());
                    self.insert(
                        text::text_of(key.as_slice()),
                        text::text_of(name.as_slice()),
                        text::text_of(summary.as_slice()),
                    );
                },
                None => {},
            },
            None => {},
        }
    }

    /// Extracts the IDs and the names of the desktop and console applications of a
    /// catalogue.
    pub fn parse_appstream_names(&mut self, content: &str)
        ensures
            final(self)@ == with_components(old(self)@, content@, 0),
    {
        let chars = text::chars_of(content);
        let xml = chars.as_slice();
        let end = text::chars_of("</component>");
        let n: usize = xml.len();
        let ghost before = self@;
        let mut pos: usize = 0;
        proof {
            reveal_strlit("</component>");
        }
        loop
            invariant
                n == xml@.len(),
                pos <= n,
                end@ == "</component>"@,
                end@.len() == 12,
                with_components(before, xml@, 0) == with_components(self@, xml@, pos as int),
            ensures
                self@ == with_components(before, xml@, 0),
            decreases n - pos,
        {
            match find_component(xml, pos) {
                None => {
                    break;
                },
                Some(a) => match text::find(xml, end.as_slice(), a) {
                    None => {
                        break;
                    },
                    Some(b) => {
                        let component = text::cut(xml, a, b + 12);
                        self.add_component(component.as_slice());
                        pos = b + 12;
                    },
                },
            }
        }
    }

    /// Adds the applications of a catalogue that has been decoded.
    pub fn add_decoded(&mut self, decoded: &(Vec<u8>, bool))
        ensures
            final(self)@ == with_catalogue(old(self)@, (decoded.0@, decoded.1)),
    {
        if decoded.1 {
            match bytes::decoded(decoded.0.as_slice()) {
                Some(content) => self.parse_appstream_names(content.as_str()),
                None => {},
            }
        }
    }

    /// Adds the applications of a catalogue, given its gzip file.
    pub fn add_catalogue(&mut self, file: &[u8])
        ensures
            final(self)@ == with_catalogue(old(self)@, bytes::gunzipped(file@)),
    {
        let decoded = bytes::gunzip(file);
        self.add_decoded(&decoded);
    }
}

/// The names of all catalogues, one after the other.
pub open spec fn catalogue_names(files: Seq<Seq<u8>>) -> Map<Seq<char>, (Seq<char>, Seq<char>)>
    decreases files.len(),
{
    if files.len() == 0 {
        Map::empty()
    } else {
        with_catalogue(catalogue_names(files.drop_last()), bytes::gunzipped(files.last()))
    }
}

/// The bytes of a list of files.
pub open spec fn contents(v: Seq<Vec<u8>>) -> Seq<Seq<u8>> {
    v.map_values(|f: Vec<u8>| f@)
}

/// Builds a map of Flatpak application IDs to human-readable names from the gzip files
/// of the catalogues.
pub fn build_flatpak_name_map(files: &Vec<Vec<u8>>) -> (r: AppMap)
    ensures
        r@ == catalogue_names(contents(files@)),
{
    let ghost all = contents(files@);
    let mut r = AppMap::new();
    let mut i: usize = 0;
    assert(all.take(0) =~= Seq::empty());
    while i < files.len()
        invariant
            i <= files@.len(),
            all == contents(files@),
            r@ == catalogue_names(all.take(i as int)),
        decreases files@.len() - i,
    {
        assert(all.take(i + 1).drop_last() =~= all.take(i as int));
        assert(all.take(i + 1).last() == files@[i as int]@);
        r.add_catalogue(files[i].as_slice());
        i += 1;
    }
    assert(all.take(all.len() as int) =~= all);
    r
}

/// What stands between `open` at the front of a line and `close` at its end.
pub open spec fn inner(line: Seq<char>, open: Seq<char>, close: Seq<char>) -> Seq<char> {
    match text::without_suffix(text::rest(line, open), close) {
        Some(t) => t,
        None => Seq::empty(),
    }
}

/// A line that is one element.
pub open spec fn is_element(line: Seq<char>, open: Seq<char>, close: Seq<char>) -> bool {
    text::starts_with(line, open) && text::ends_with(line, close)
}

/// Whether a line is one element.
fn one_element(line: &[char], open: &str, close: &str) -> (r: bool)
    ensures
        r == is_element(line@, open@, close@),
{
    text::begins_with(line, open) && text::ends_in(line, close)
}

/// What stands between `open` at the front of a line and `close` at its end.
fn inner_of(line: &[char], open: &str, close: &str) -> (r: Vec<char>)
    ensures
        r@ == inner(line@, open@, close@),
{
    let t = text::rest_of(line, open);
    match text::before_words(t.as_slice(), close) {
        Some(t) => t,
        None => Vec::new(),
    }
}

/// What has been read of a catalogue: the component that is open, and the rows of those
/// that belong to the category.
#[verifier::ext_equal]
pub struct Reading {
    pub id: Seq<char>,
    pub name: Seq<char>,
    pub summary: Seq<char>,
    pub categories: Seq<Seq<char>>,
    pub in_component: bool,
    pub in_categories: bool,
    pub found: Seq<PackageDataView>,
}

/// A catalogue before its first line.
pub open spec fn unread() -> Reading {
    Reading {
        id: Seq::empty(),
        name: Seq::empty(),
        summary: Seq::empty(),
        categories: Seq::empty(),
        in_component: false,
        in_categories: false,
        found: Seq::empty(),
    }
}

/// A catalogue read one line further.
pub open spec fn read_line(r: Reading, raw: Seq<char>, category: Seq<char>) -> Reading {
    let line = text::trim(raw);
    if text::has(line, "<component"@) && text::has(line, "desktop-application"@) {
        Reading {
            id: Seq::empty(),
            name: Seq::empty(),
            summary: Seq::empty(),
            categories: Seq::empty(),
            in_component: true,
            ..r
        }
    } else if text::has(line, "</component>"@) {
        if r.in_component && r.categories.contains(category) {
            Reading {
                in_component: false,
                found: r.found.push(
                    ui::plain_row(
                        r.id,
                        r.name,
                        Seq::empty(),
                        r.summary,
                        "flathub"@,
                        1,
                        false,
                        false,
                    ),
                ),
                ..r
            }
        } else {
            Reading { in_component: false, ..r }
        }
    } else if !r.in_component {
        r
    } else if is_element(line, "<id>"@, "</id>"@) {
        Reading { id: inner(line, "<id>"@, "</id>"@), ..r }
    } else if is_element(line, "<name>"@, "</name>"@) && r.name.len() == 0 {
        Reading { name: inner(line, "<name>"@, "</name>"@), ..r }
    } else if is_element(line, "<summary>"@, "</summary>"@) && r.summary.len() == 0 {
        Reading { summary: inner(line, "<summary>"@, "</summary>"@), ..r }
    } else if line == "<categories>"@ {
        Reading { in_categories: true, ..r }
    } else if line == "</categories>"@ {
        Reading { in_categories: false, ..r }
    } else if r.in_categories && is_element(line, "<category>"@, "</category>"@) {
        Reading { categories: r.categories.push(inner(line, "<category>"@, "</category>"@)), ..r }
    } else {
        r
    }
}

/// A catalogue read line by line.
pub open spec fn read_catalogue(ls: Seq<Seq<char>>, category: Seq<char>) -> Reading
    decreases ls.len(),
{
    if ls.len() == 0 {
        unread()
    } else {
        read_line(read_catalogue(ls.drop_last(), category), ls.last(), category)
    }
}

/// The state of a reader of catalogues.
struct Parser {
    id: Vec<char>,
    name: Vec<char>,
    summary: Vec<char>,
    categories: Vec<Vec<char>>,
    in_component: bool,
    in_categories: bool,
    found: Vec<PackageData>,
}

impl View for Parser {
    type V = Reading;

    closed spec fn view(&self) -> Reading {
        Reading {
            id: self.id@,
            name: self.name@,
            summary: self.summary@,
            categories: text::texts(self.categories@),
            in_component: self.in_component,
            in_categories: self.in_categories,
            found: ui::rows(self.found@),
        }
    }
}

/// Whether a text is among others.
pub fn is_among(items: &Vec<Vec<char>>, wanted: &[char]) -> (r: bool)
    ensures
        r == text::texts(items@).contains(wanted@),
{
    let ghost all = text::texts(items@);
    let mut i: usize = 0;
    while i < items.len()
        invariant
            i <= items@.len(),
            all == text::texts(items@),
            forall|k: int| 0 <= k < i ==> all[k] != wanted@,
        decreases items@.len() - i,
    {
        assert(all[i as int] == items@[i as int]@);
        if text::same(items[i].as_slice(), wanted) {
            return true;
        }
        i += 1;
    }
    false
}

impl Parser {
    /// Reads one line further.
    fn step(&mut self, raw: &[char], category: &[char])
        ensures
            final(self)@ == read_line(old(self)@, raw@, category@),
    {
        let trimmed = text::trimmed(raw);
        let line = trimmed.as_slice();
        if text::mentions(line, "<component") && text::mentions(line, "desktop-application") {
            self.in_component = true;
            self.id = Vec::new();
            self.name = Vec::new();
            self.summary = Vec::new();
            self.categories = Vec::new();
            assert(text::texts(self.categories@) =~= Seq::empty());
        } else if text::mentions(line, "</component>") {
            if self.in_component && is_among(&self.categories, category) {
                let ghost before = self@.found;
                let row = PackageData::plain(
                    text::text_of(self.id.as_slice()),
                    text::text_of(self.name.as_slice()),
                    String::new(),
                    text::text_of(self.summary.as_slice()),
                    "flathub".to_owned(),
                    1,
                    false,
                    false,
                );
                self.found.push(row);
                assert(ui::rows(self.found@) =~= before.push(row@));
            }
            self.in_component = false;
        } else if !self.in_component {
        } else if one_element(line, "<id>", "</id>") {
            self.id = inner_of(line, "<id>", "</id>");
        } else if one_element(line, "<name>", "</name>") && self.name.len() == 0 {
            self.name = inner_of(line, "<name>", "</name>");
        } else if one_element(line, "<summary>", "</summary>") && self.summary.len() == 0 {
            self.summary = inner_of(line, "<summary>", "</summary>");
        } else {
            let open = text::chars_of("<categories>");
            let close = text::chars_of("</categories>");
            if text::same(line, open.as_slice()) {
                self.in_categories = true;
            } else if text::same(line, close.as_slice()) {
                self.in_categories = false;
            } else if self.in_categories && one_element(line, "<category>", "</category>") {
                let ghost before = self@.categories;
                let c = inner_of(line, "<category>", "</category>");
                self.categories.push(c);
                assert(text::texts(self.categories@) =~= before.push(c@));
            }
        }
    }
}

/// The rows of the applications of a category, as the lines of a catalogue describe
/// them.
pub fn parse_appstream_xml(ls: &Vec<Vec<char>>, target_category: &str) -> (r: Vec<PackageData>)
    ensures
        ui::rows(r@) == read_catalogue(text::texts(ls@), target_category@).found,
{
    let category = text::chars_of(target_category);
    let ghost all = text::texts(ls@);
    let mut parser = Parser {
        id: Vec::new(),
        name: Vec::new(),
        summary: Vec::new(),
        categories: Vec::new(),
        in_component: false,
        in_categories: false,
        found: Vec::new(),
    };
    let mut i: usize = 0;
    assert(all.take(0) =~= Seq::empty());
    assert(parser@ =~= unread());
    while i < ls.len()
        invariant
            i <= ls@.len(),
            all == text::texts(ls@),
            category@ == target_category@,
            parser@ == read_catalogue(all.take(i as int), target_category@),
        decreases ls@.len() - i,
    {
        assert(all.take(i + 1).drop_last() =~= all.take(i as int));
        assert(all.take(i + 1).last() == ls@[i as int]@);
        parser.step(ls[i].as_slice(), category.as_slice());
        i += 1;
    }
    assert(all.take(all.len() as int) =~= all);
    parser.found
}

/// The rows of a category in a catalogue that has been decoded.
pub open spec fn category_rows(decoded: (Seq<u8>, bool), category: Seq<char>) -> Seq<
    PackageDataView,
> {
    read_catalogue(bytes::read_lines(decoded.0, decoded.1), category).found
}

/// The rows of a category in a catalogue that has been decoded.
pub fn decoded_category(decoded: &(Vec<u8>, bool), target_category: &str) -> (r: Vec<PackageData>)
    ensures
        ui::rows(r@) == category_rows((decoded.0@, decoded.1), target_category@),
{
    let ls = bytes::lines_read(decoded.0.as_slice(), decoded.1);
    parse_appstream_xml(&ls, target_category)
}

/// Parses a catalogue, given its gzip file, for the applications of a category.
pub fn parse_appstream_for_category(file: &[u8], target_category: &str) -> (r: Vec<PackageData>)
    ensures
        ui::rows(r@) == category_rows(bytes::gunzipped(file@), target_category@),
{
    let decoded = bytes::gunzip(file);
    decoded_category(&decoded, target_category)
}

/// The content of an element is what stands between the first opening tag and the first
/// closing tag behind it.
pub proof fn elements_have_contents(
    xml: Seq<char>,
    a: Seq<char>,
    content: Seq<char>,
    b: Seq<char>,
    tag: Seq<char>,
)
    requires
        xml == a + (seq!['<'] + tag + seq!['>']) + content + (seq!['<', '/'] + tag + seq!['>']) + b,
        forall|i: int|
            0 <= i < a.len() ==> !text::occurs_at(xml, seq!['<'] + tag + seq!['>'], i),
        forall|i: int|
            a.len() + tag.len() + 2 <= i < a.len() + tag.len() + 2 + content.len()
                ==> !text::occurs_at(xml, seq!['<', '/'] + tag + seq!['>'], i),
    ensures
        tag_content(xml, tag) == Some(content),
{
    let open = seq!['<'] + tag + seq!['>'];
    let close = seq!['<', '/'] + tag + seq!['>'];
    let at = a.len() as int;
    let from = at + open.len();
    let end = from + content.len();
    text::find_from_is_first(xml, open, 0);
    text::find_from_is_first(xml, close, from);
    assert(xml.subrange(at, at + open.len()) =~= open);
    assert(text::occurs_at(xml, open, at));
    assert(xml.subrange(end, end + close.len()) =~= close);
    assert(text::occurs_at(xml, close, end));
    assert(xml.subrange(from, end) =~= content);
}

/// Where there is no opening tag, or no closing tag behind it, there is no content.
pub proof fn open_elements_have_none(xml: Seq<char>, tag: Seq<char>)
    ensures
        !text::has(xml, seq!['<'] + tag + seq!['>']) ==> tag_content(xml, tag) is None,
        !text::has(xml, seq!['<', '/'] + tag + seq!['>']) ==> tag_content(xml, tag) is None,
{
    let open = seq!['<'] + tag + seq!['>'];
    let close = seq!['<', '/'] + tag + seq!['>'];
    text::has_iff_found(xml, open);
    text::find_from_is_first(xml, open, 0);
    if let Some(a) = text::find_from(xml, open, 0) {
        text::find_from_is_first(xml, close, (a + open.len()) as int);
        if let Some(b) = text::find_from(xml, close, (a + open.len()) as int) {
            assert(text::occurs_at(xml, close, b));
        }
    }
}

/// A component with an ID and a name names the application of that ID, in lower case, with
/// its summary, where it has one; it changes nothing else. Any other component names none.
pub proof fn components_name_applications(
    names: Map<Seq<char>, (Seq<char>, Seq<char>)>,
    component: Seq<char>,
)
    ensures
        ({
            let after = with_component(names, component);
            let id = tag_content(component, "id"@);
            let name = tag_content(component, "name"@);
            let summary = tag_content(component, "summary"@);
            &&& id is None || name is None ==> after == names
            &&& id is Some && name is Some ==> {
                let key = text::lowercase(id.unwrap());
                &&& after.contains_key(key)
                &&& after[key].0 == name.unwrap()
                &&& summary matches Some(t) ==> after[key].1 == t
                &&& summary is None ==> after[key].1.len() == 0
                &&& forall|k: Seq<char>|
                    k != key ==> (#[trigger] after.contains_key(k) <==> names.contains_key(k)) && (
                    names.contains_key(k) ==> after[k] == names[k])
            }
        }),
{
}

/// What is found in the rest of a text is found in the rest.
proof fn found_shifted(a: Seq<char>, b: Seq<char>, p: Seq<char>, i: int)
    requires
        0 <= i,
    ensures
        text::find_from(a + b, p, a.len() + i) == (match text::find_from(b, p, i) {
            Some(k) => Some(a.len() + k),
            None => None,
        }),
    decreases b.len() + 1 - i,
{
    let s = a + b;
    let k = a.len() + i;
    if i + p.len() <= b.len() {
        assert(s.subrange(k, k + p.len()) =~= b.subrange(i, i + p.len()));
        assert(text::occurs_at(s, p, k) == text::occurs_at(b, p, i));
        if !text::occurs_at(b, p, i) {
            found_shifted(a, b, p, i + 1);
        }
    }
}

/// The components of the rest of a catalogue are those of the rest.
proof fn components_shifted(
    names: Map<Seq<char>, (Seq<char>, Seq<char>)>,
    a: Seq<char>,
    b: Seq<char>,
    i: int,
)
    requires
        0 <= i,
    ensures
        with_components(names, a + b, a.len() + i) == with_components(names, b, i),
    decreases b.len() - i,
{
    let s = a + b;
    let desktop = "<component type=\"desktop"@;
    let console = "<component type=\"console"@;
    let end = "</component>"@;
    reveal_strlit("</component>");
    if i <= b.len() {
        found_shifted(a, b, desktop, i);
        found_shifted(a, b, console, i);
        text::find_from_is_first(b, desktop, i);
        text::find_from_is_first(b, console, i);
        if let Some(x) = component_from(b, i) {
            found_shifted(a, b, end, x);
            text::find_from_is_first(b, end, x);
            if let Some(y) = text::find_from(b, end, x) {
                assert(s.subrange(a.len() + x, a.len() + y + 12) =~= b.subrange(x, y + 12));
                components_shifted(with_component(names, b.subrange(x, y + 12)), a, b, y + 12);
            }
        }
    }
}

/// Every component of a desktop or console application counts, one after the other, with
/// what stands up to its closing tag.
pub proof fn every_component_counts(
    names: Map<Seq<char>, (Seq<char>, Seq<char>)>,
    a: Seq<char>,
    component: Seq<char>,
    b: Seq<char>,
)
    requires
        text::starts_with(component, "<component type=\"desktop"@) || text::starts_with(
            component,
            "<component type=\"console"@,
        ),
        text::find_from(component, "</component>"@, 0) == Some(component.len() - 12),
        forall|i: int|
            0 <= i < a.len() ==> !text::occurs_at(
                a + component + b,
                "<component type=\"desktop"@,
                i,
            ) && !text::occurs_at(a + component + b, "<component type=\"console"@, i),
    ensures
        with_components(names, a + component + b, 0) == with_components(
            with_component(names, component),
            b,
            0,
        ),
{
    let s = a + component + b;
    let rest = component + b;
    let desktop = "<component type=\"desktop"@;
    let console = "<component type=\"console"@;
    let end = "</component>"@;
    reveal_strlit("</component>");
    reveal_strlit("<component type=\"desktop");
    reveal_strlit("<component type=\"console");
    let at = a.len() as int;
    let n = component.len() - 12;
    assert(s =~= a + rest);
    text::find_from_is_first(s, desktop, 0);
    text::find_from_is_first(s, console, 0);
    if text::starts_with(component, desktop) {
        assert(component.subrange(0, desktop.len() as int) == desktop);
        assert(s.subrange(at, at + desktop.len()) =~= component.subrange(0, desktop.len() as int));
        assert(text::occurs_at(s, desktop, at));
    } else {
        assert(component.subrange(0, console.len() as int) == console);
        assert(s.subrange(at, at + console.len()) =~= component.subrange(0, console.len() as int));
        assert(text::occurs_at(s, console, at));
    }
    assert(component_from(s, 0) == Some(at));
    text::find_from_is_first(component, end, 0);
    text::find_from_is_first(rest, end, 0);
    assert(rest.subrange(n, n + 12) =~= component.subrange(n, n + 12));
    assert(text::occurs_at(rest, end, n));
    assert forall|j: int| 0 <= j < n implies !text::occurs_at(rest, end, j) by {
        if text::occurs_at(rest, end, j) {
            assert(component.subrange(j, j + 12) =~= rest.subrange(j, j + 12));
            assert(text::occurs_at(component, end, j));
        }
    }
    assert(text::find_from(rest, end, 0) == Some(n));
    found_shifted(a, rest, end, 0);
    assert(s.subrange(at, at + n + 12) =~= component);
    components_shifted(with_component(names, component), a + component, b, 0);
}

/// A catalogue without components of desktop or console applications names none, and
/// neither does one that could not be read whole or is no text.
pub proof fn other_catalogues_name_none(
    names: Map<Seq<char>, (Seq<char>, Seq<char>)>,
    xml: Seq<char>,
    data: Seq<u8>,
)
    ensures
        !text::has(xml, "<component type=\"desktop"@) && !text::has(
            xml,
            "<component type=\"console"@,
        ) ==> with_components(names, xml, 0) == names,
        with_catalogue(names, (data, false)) == names,
        !valid_utf8(data) ==> with_catalogue(names, (data, true)) == names,
        valid_utf8(data) ==> with_catalogue(names, (data, true)) == with_components(
            names,
            decode_utf8(data),
            0,
        ),
{
    text::has_iff_found(xml, "<component type=\"desktop"@);
    text::has_iff_found(xml, "<component type=\"console"@);
}

/// All catalogues count, one after the other.
pub proof fn all_catalogues_count(files: Seq<Seq<u8>>, file: Seq<u8>)
    ensures
        catalogue_names(Seq::empty()) == Map::<Seq<char>, (Seq<char>, Seq<char>)>::empty(),
        catalogue_names(files.push(file)) == with_catalogue(
            catalogue_names(files),
            bytes::gunzipped(file),
        ),
{
    assert(files.push(file).drop_last() =~= files);
}

/// A line that is an element, with spaces around it or not.
proof fn element_is_read(line: Seq<char>, open: Seq<char>, content: Seq<char>, close: Seq<char>)
    requires
        line == open + content + close,
    ensures
        is_element(line, open, close),
        inner(line, open, close) == content,
{
    assert(line =~= open + (content + close));
    text::start_means_made_of(line, open);
    text::end_means_made_of(line, close);
    assert(line =~= (open + content) + close);
    text::end_means_made_of(content + close, close);
}

/// What the lines of a component say of an application: a line with its ID sets that, and
/// the first line with a name and the first with a summary set those.
pub proof fn elements_are_read(r: Reading, t: Seq<char>, category: Seq<char>)
    requires
        r.in_component,
        !t.contains('<'),
    ensures
        read_line(r, "<id>"@ + t + "</id>"@, category) == (Reading { id: t, ..r }),
        r.name.len() == 0 ==> read_line(r, "<name>"@ + t + "</name>"@, category) == (Reading {
            name: t,
            ..r
        }),
        r.summary.len() == 0 ==> read_line(r, "<summary>"@ + t + "</summary>"@, category) == (
        Reading { summary: t, ..r }),
        r.in_categories ==> read_line(r, "<category>"@ + t + "</category>"@, category) == (Reading {
            categories: r.categories.push(t),
            ..r
        }),
        !r.in_categories ==> read_line(r, "<category>"@ + t + "</category>"@, category) == r,
{
    id_is_read(r, t, category);
    name_is_read(r, t, category);
    summary_is_read(r, t, category);
    category_is_read(r, t, category);
}

/// A line with the ID sets it.
proof fn id_is_read(r: Reading, t: Seq<char>, category: Seq<char>)
    requires
        r.in_component,
        !t.contains('<'),
    ensures
        read_line(r, "<id>"@ + t + "</id>"@, category) == (Reading { id: t, ..r }),
{
    reveal_strlit("<id>");
    reveal_strlit("</id>");
    plain_element(t, "<id>"@, "</id>"@);
}

/// The first line with a name sets it.
proof fn name_is_read(r: Reading, t: Seq<char>, category: Seq<char>)
    requires
        r.in_component,
        !t.contains('<'),
    ensures
        r.name.len() == 0 ==> read_line(r, "<name>"@ + t + "</name>"@, category) == (Reading {
            name: t,
            ..r
        }),
{
    reveal_strlit("<id>");
    reveal_strlit("<name>");
    reveal_strlit("</name>");
    plain_element(t, "<name>"@, "</name>"@);
    text::starts_otherwise("<name>"@ + t + "</name>"@, "<id>"@, 1);
}

/// The first line with a summary sets it.
proof fn summary_is_read(r: Reading, t: Seq<char>, category: Seq<char>)
    requires
        r.in_component,
        !t.contains('<'),
    ensures
        r.summary.len() == 0 ==> read_line(r, "<summary>"@ + t + "</summary>"@, category) == (
        Reading { summary: t, ..r }),
{
    reveal_strlit("<id>");
    reveal_strlit("<name>");
    reveal_strlit("<summary>");
    reveal_strlit("</summary>");
    plain_element(t, "<summary>"@, "</summary>"@);
    text::starts_otherwise("<summary>"@ + t + "</summary>"@, "<id>"@, 1);
    text::starts_otherwise("<summary>"@ + t + "</summary>"@, "<name>"@, 1);
}

/// A line with a category counts within the list of categories.
proof fn category_is_read(r: Reading, t: Seq<char>, category: Seq<char>)
    requires
        r.in_component,
        !t.contains('<'),
    ensures
        r.in_categories ==> read_line(r, "<category>"@ + t + "</category>"@, category) == (Reading {
            categories: r.categories.push(t),
            ..r
        }),
        !r.in_categories ==> read_line(r, "<category>"@ + t + "</category>"@, category) == r,
{
    reveal_strlit("<category>");
    reveal_strlit("</category>");
    let line = "<category>"@ + t + "</category>"@;
    plain_element(t, "<category>"@, "</category>"@);
    assert(line[8] == 'y' && line[1] == 'c');
    category_is_no_other(line);
}

/// A line with a category is neither another element nor an end of the list.
proof fn category_is_no_other(line: Seq<char>)
    requires
        line.len() > 8,
        line[8] == 'y',
        line[1] == 'c',
    ensures
        !text::starts_with(line, "<id>"@),
        !text::starts_with(line, "<name>"@),
        !text::starts_with(line, "<summary>"@),
        line != "<categories>"@,
        line != "</categories>"@,
{
    reveal_strlit("<id>");
    reveal_strlit("<name>");
    reveal_strlit("<summary>");
    reveal_strlit("<categories>");
    reveal_strlit("</categories>");
    text::starts_otherwise(line, "<id>"@, 1);
    text::starts_otherwise(line, "<name>"@, 1);
    text::starts_otherwise(line, "<summary>"@, 1);
    assert("<categories>"@[8] == 'i');
    assert("</categories>"@[1] == '/');
}

/// A line that is an element of these says nothing of components.
proof fn plain_element(t: Seq<char>, open: Seq<char>, close: Seq<char>)
    requires
        !t.contains('<'),
        open.len() >= 3 && close.len() >= 4,
        open[0] == '<' && close[0] == '<' && close[1] == '/',
        open[open.len() - 1] == '>' && close[close.len() - 1] == '>',
        forall|i: int| 1 <= i < open.len() ==> #[trigger] open[i] != '<',
        forall|i: int| 1 <= i < close.len() ==> #[trigger] close[i] != '<',
        open[2] != 'o',
        open[1] != '/',
        close[3] != 'o',
    ensures
        ({
            let line = open + t + close;
            &&& text::trim(line) == line
            &&& !text::has(line, "<component"@)
            &&& !text::has(line, "</component>"@)
            &&& is_element(line, open, close)
            &&& inner(line, open, close) == t
        }),
{
    let line = open + t + close;
    let none = Seq::<char>::empty();
    element_is_read(line, open, t, close);
    text::ascii_spaces_and_digits('<');
    text::ascii_spaces_and_digits('>');
    assert(line.first() == '<' && line.last() == '>') by {
        assert(line[0] == open[0]);
        assert(line[line.len() - 1] == close[close.len() - 1]);
    }
    text::trimming_finds_the_middle(none, line, none);
    assert(none + line + none =~= line);
    reveal_strlit("<component");
    reveal_strlit("</component>");
    let n = open.len() + t.len();
    assert forall|i: int| 0 <= i < line.len() && line[i] == '<' implies i == 0 || i == n by {
        if 0 < i < open.len() {
            assert(line[i] == open[i]);
        } else if open.len() <= i < n {
            assert(line[i] == t[i - open.len()]);
            assert(t.contains(t[i - open.len()]));
        } else if i > n {
            assert(line[i] == close[i - n]);
        }
    }
    if text::has(line, "<component"@) {
        let i = choose|i: int| text::occurs_at(line, "<component"@, i);
        let p = line.subrange(i, i + 10);
        assert(p[0] == line[i] && p[1] == line[i + 1] && p[2] == line[i + 2]);
        if i == 0 {
            assert(line[2] == open[2]);
        } else {
            assert(line[i + 1] == close[1]);
        }
    }
    if text::has(line, "</component>"@) {
        let i = choose|i: int| text::occurs_at(line, "</component>"@, i);
        let p = line.subrange(i, i + 12);
        assert(p[0] == line[i] && p[1] == line[i + 1] && p[3] == line[i + 3]);
        if i == 0 {
            assert(line[1] == open[1]);
        } else {
            assert(line[i + 3] == close[3]);
        }
    }
}

/// A component of a desktop application begins with nothing known of it. When it ends, it
/// is among those found exactly where it lists the category; it is found once, with its ID,
/// its name and its summary.
pub proof fn components_are_found(r: Reading, category: Seq<char>, start: Seq<char>, end: Seq<char>)
    requires
        text::has(text::trim(start), "<component"@),
        text::has(text::trim(start), "desktop-application"@),
        text::has(text::trim(end), "</component>"@),
        !text::has(text::trim(end), "desktop-application"@),
    ensures
        ({
            let begun = read_line(r, start, category);
            &&& begun.in_component
            &&& begun.id.len() == 0 && begun.name.len() == 0 && begun.summary.len() == 0
            &&& begun.categories.len() == 0
            &&& begun.found == r.found
        }),
        ({
            let ended = read_line(r, end, category);
            let wanted = exists|k: int|
                0 <= k < r.categories.len() && #[trigger] r.categories[k] == category;
            &&& !ended.in_component
            &&& !(r.in_component && wanted) ==> ended.found == r.found
            &&& r.in_component && wanted ==> ended.found.len() == r.found.len() + 1
                && ended.found.drop_last() == r.found && ended.found.last().name == r.id
                && ended.found.last().display_name == r.name && ended.found.last().description
                == r.summary && ended.found.last().repository == "flathub"@
                && ended.found.last().backend == 1 && !ended.found.last().installed
        }),
{
    let ended = read_line(r, end, category);
    if r.categories.contains(category) {
        let k = choose|k: int| 0 <= k < r.categories.len() && r.categories[k] == category;
        assert(r.categories[k] == category);
        assert(r.in_component ==> ended.found.drop_last() =~= r.found);
    }
}

/// Categories are listed between the two lines that say so, and outside a component no
/// line says anything.
pub proof fn lists_of_categories_are_marked(r: Reading, category: Seq<char>, line: Seq<char>)
    requires
        r.in_component,
    ensures
        read_line(r, "<categories>"@, category) == (Reading { in_categories: true, ..r }),
        read_line(r, "</categories>"@, category) == (Reading { in_categories: false, ..r }),
        ({
            let out = Reading { in_component: false, ..r };
            !text::has(text::trim(line), "<component"@) && !text::has(
                text::trim(line),
                "</component>"@,
            ) ==> read_line(out, line, category) == out
        }),
{
    reveal_strlit("<categories>");
    reveal_strlit("</categories>");
    reveal_strlit("<component");
    reveal_strlit("</component>");
    reveal_strlit("<id>");
    reveal_strlit("<name>");
    reveal_strlit("<summary>");
    let none = Seq::<char>::empty();
    let open = "<categories>"@;
    let close = "</categories>"@;
    text::ascii_spaces_and_digits('<');
    text::ascii_spaces_and_digits('>');
    text::trimming_finds_the_middle(none, open, none);
    text::trimming_finds_the_middle(none, close, none);
    assert(none + open + none =~= open);
    assert(none + close + none =~= close);
    if text::has(open, "<component"@) {
        let i = choose|i: int| text::occurs_at(open, "<component"@, i);
        assert(open.subrange(i, i + 10)[0] == open[i]);
        assert(open.subrange(i, i + 10)[2] == open[i + 2]);
    }
    if text::has(close, "<component"@) {
        let i = choose|i: int| text::occurs_at(close, "<component"@, i);
        assert(close.subrange(i, i + 10)[0] == close[i]);
        assert(close.subrange(i, i + 10)[1] == close[i + 1]);
    }
    if text::has(open, "</component>"@) {
        let i = choose|i: int| text::occurs_at(open, "</component>"@, i);
        assert(open.subrange(i, i + 12)[0] == open[i]);
        assert(open.subrange(i, i + 12)[1] == open[i + 1]);
    }
    if text::has(close, "</component>"@) {
        let i = choose|i: int| text::occurs_at(close, "</component>"@, i);
        assert(close.subrange(i, i + 12)[0] == close[i]);
        assert(close.subrange(i, i + 12)[3] == close[i + 3]);
    }
    text::starts_otherwise(open, "<id>"@, 1);
    text::starts_otherwise(open, "<name>"@, 1);
    text::starts_otherwise(open, "<summary>"@, 1);
    text::starts_otherwise(close, "<id>"@, 1);
    text::starts_otherwise(close, "<name>"@, 1);
    text::starts_otherwise(close, "<summary>"@, 1);
    assert(open.len() == 12 && close.len() == 13);
}

/// A catalogue is read line by line, from its first line on.
pub proof fn catalogues_are_read_by_lines(ls: Seq<Seq<char>>, line: Seq<char>, category: Seq<char>)
    ensures
        read_catalogue(Seq::empty(), category).found.len() == 0,
        !read_catalogue(Seq::empty(), category).in_component,
        read_catalogue(ls.push(line), category) == read_line(
            read_catalogue(ls, category),
            line,
            category,
        ),
{
    assert(ls.push(line).drop_last() =~= ls);
}

/// Of several names of a component, and of several summaries, the first stays.
pub proof fn first_texts_stay(r: Reading, t: Seq<char>, category: Seq<char>)
    requires
        r.in_component,
        !t.contains('<'),
    ensures
        r.name.len() > 0 ==> read_line(r, "<name>"@ + t + "</name>"@, category) == r,
        r.summary.len() > 0 ==> read_line(r, "<summary>"@ + t + "</summary>"@, category) == r,
{
    first_name_stays(r, t, category);
    first_summary_stays(r, t, category);
}

/// A second name is passed over.
proof fn first_name_stays(r: Reading, t: Seq<char>, category: Seq<char>)
    requires
        r.in_component,
        !t.contains('<'),
    ensures
        r.name.len() > 0 ==> read_line(r, "<name>"@ + t + "</name>"@, category) == r,
{
    reveal_strlit("<id>");
    reveal_strlit("<name>");
    reveal_strlit("</name>");
    reveal_strlit("<summary>");
    reveal_strlit("<category>");
    reveal_strlit("<categories>");
    reveal_strlit("</categories>");
    let line = "<name>"@ + t + "</name>"@;
    plain_element(t, "<name>"@, "</name>"@);
    text::starts_otherwise(line, "<id>"@, 1);
    text::starts_otherwise(line, "<summary>"@, 1);
    text::starts_otherwise(line, "<category>"@, 1);
    assert(line[1] == 'n');
    assert(line != "<categories>"@) by {
        assert("<categories>"@[1] == 'c');
    }
    assert(line != "</categories>"@) by {
        assert("</categories>"@[1] == '/');
    }
}

/// A second summary is passed over.
proof fn first_summary_stays(r: Reading, t: Seq<char>, category: Seq<char>)
    requires
        r.in_component,
        !t.contains('<'),
    ensures
        r.summary.len() > 0 ==> read_line(r, "<summary>"@ + t + "</summary>"@, category) == r,
{
    reveal_strlit("<id>");
    reveal_strlit("<name>");
    reveal_strlit("<summary>");
    reveal_strlit("</summary>");
    reveal_strlit("<category>");
    reveal_strlit("<categories>");
    reveal_strlit("</categories>");
    let line = "<summary>"@ + t + "</summary>"@;
    plain_element(t, "<summary>"@, "</summary>"@);
    text::starts_otherwise(line, "<id>"@, 1);
    text::starts_otherwise(line, "<name>"@, 1);
    text::starts_otherwise(line, "<category>"@, 1);
    assert(line[1] == 's');
    assert(line != "<categories>"@) by {
        assert("<categories>"@[1] == 'c');
    }
    assert(line != "</categories>"@) by {
        assert("</categories>"@[1] == '/');
    }
}

} // verus!
