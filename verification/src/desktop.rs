//! The applications of a category, from desktop files and AppStream catalogues.
use crate::appstream;
use crate::bytes;
use crate::names;
use crate::order;
use crate::text;
use crate::text::Sep;
use crate::ui;
use crate::ui::{PackageData, PackageDataView, UiMessage, UiMessageView};
use vstd::prelude::*;
use vstd::string::*;

verus! {

broadcast use vstd::seq_lib::group_seq_properties;

/// What a desktop file says of an application.
#[verifier::ext_equal]
pub struct Entry {
    pub name: Seq<char>,
    pub generic_name: Seq<char>,
    pub comment: Seq<char>,
    pub categories: Seq<char>,
    pub no_display: bool,
    pub hidden: bool,
}

/// What the lines of a desktop file say of an application; a later line goes before an
/// earlier one.
pub open spec fn entry(ls: Seq<Seq<char>>) -> Entry
    decreases ls.len(),
{
    if ls.len() == 0 {
        Entry {
            name: Seq::empty(),
            generic_name: Seq::empty(),
            comment: Seq::empty(),
            categories: Seq::empty(),
            no_display: false,
            hidden: false,
        }
    } else {
        let before = entry(ls.drop_last());
        let line = ls.last();
        let plain = !line.contains('[');
        if text::starts_with(line, "Name="@) && plain {
            Entry { name: text::rest(line, "Name="@), ..before }
        } else if text::starts_with(line, "GenericName="@) && plain {
            Entry { generic_name: text::rest(line, "GenericName="@), ..before }
        } else if text::starts_with(line, "Comment="@) && plain {
            Entry { comment: text::rest(line, "Comment="@), ..before }
        } else if text::starts_with(line, "Categories="@) {
            Entry { categories: text::rest(line, "Categories="@), ..before }
        } else if text::starts_with(line, "NoDisplay=true"@) {
            Entry { no_display: true, ..before }
        } else if text::starts_with(line, "Hidden=true"@) {
            Entry { hidden: true, ..before }
        } else {
            before
        }
    }
}

/// A file in a directory of the menu.
#[derive(Debug)]
pub struct MenuFile {
    /// The file's path.
    pub path: String,
    /// The file's name in its directory.
    pub file_name: String,
    /// What the file holds.
    pub content: String,
}

/// What a `MenuFile` holds.
#[verifier::ext_equal]
pub struct MenuFileView {
    pub path: Seq<char>,
    pub file_name: Seq<char>,
    pub content: Seq<char>,
}

impl View for MenuFile {
    type V = MenuFileView;

    open spec fn view(&self) -> MenuFileView {
        MenuFileView {
            path: self.path@,
            file_name: self.file_name@,
            content: self.content@,
        }
    }
}

/// What a list of menu files holds.
pub open spec fn menu_files(v: Seq<MenuFile>) -> Seq<MenuFileView> {
    v.map_values(|f: MenuFile| f@)
}

/// The row of an application of a category: none where the file is hidden, has no name
/// or does not list the category. It counts as a Flatpak where its path says so, and is
/// described by its comment or else its generic name.
pub open spec fn entry_row(f: MenuFileView, category: Seq<char>) -> Option<PackageDataView> {
    let e = entry(text::lines(f.content));
    if e.no_display || e.hidden || e.name.len() == 0 || !text::split(
        e.categories,
        Sep::At(';'),
    ).contains(category) {
        None
    } else {
        let flatpak = text::has(f.path, "flatpak"@);
        Some(
            ui::plain_row(
                names::file_stem(f.file_name),
                e.name,
                Seq::empty(),
                if e.comment.len() > 0 {
                    e.comment
                } else {
                    e.generic_name
                },
                if flatpak {
                    "flathub"@
                } else {
                    "native"@
                },
                if flatpak {
                    1
                } else {
                    0
                },
                true,
                false,
            ),
        )
    }
}

/// Parses a desktop file and returns a row if it matches the category.
pub fn parse_desktop_file(file: &MenuFile, target_category: &str) -> (r: Option<PackageData>)
    ensures
        match r {
            Some(p) => entry_row(file@, target_category@) == Some(p@),
            None => entry_row(file@, target_category@) is None,
        },
{
    let chars = text::chars_of(file.content.as_str());
    let ls = text::lines_of(chars.as_slice());
    let ghost all = text::texts(ls@);
    let mut name: Vec<char> = Vec::new();
    let mut generic_name: Vec<char> = Vec::new();
    let mut comment: Vec<char> = Vec::new();
    let mut categories: Vec<char> = Vec::new();
    let mut no_display = false;
    let mut hidden = false;
    let mut i: usize = 0;
    assert(all.take(0) =~= Seq::empty());
    while i < ls.len()
        invariant
            i <= ls@.len(),
            all == text::texts(ls@),
            (Entry {
                name: name@,
                generic_name: generic_name@,
                comment: comment@,
                categories: categories@,
                no_display,
                hidden,
            }) == entry(all.take(i as int)),
        decreases ls@.len() - i,
    {
        let line = ls[i].as_slice();
        assert(all.take(i + 1).drop_last() =~= all.take(i as int));
        assert(all.take(i + 1).last() == line@);
        let plain = !text::has_char(line, '[');
        if text::begins_with(line, "Name=") && plain {
            name = text::rest_of(line, "Name=");
        } else if text::begins_with(line, "GenericName=") && plain {
            generic_name = text::rest_of(line, "GenericName=");
        } else if text::begins_with(line, "Comment=") && plain {
            comment = text::rest_of(line, "Comment=");
        } else if text::begins_with(line, "Categories=") {
            categories = text::rest_of(line, "Categories=");
        } else if text::begins_with(line, "NoDisplay=true") {
            no_display = true;
        } else if text::begins_with(line, "Hidden=true") {
            hidden = true;
        }
        i += 1;
    }
    assert(all.take(all.len() as int) =~= all);
    if no_display || hidden || name.len() == 0 {
        return None;
    }
    let listed = text::pieces(categories.as_slice(), Sep::At(';'));
    let category = text::chars_of(target_category);
    if !appstream::is_among(&listed, category.as_slice()) {
        return None;
    }
    let description = if comment.len() > 0 {
        comment
    } else {
        generic_name
    };
    let path = text::chars_of(file.path.as_str());
    let flatpak = text::mentions(path.as_slice(), "flatpak");
    let repo = if flatpak {
        "flathub".to_owned()
    } else {
        "native".to_owned()
    };
    let file_name = text::chars_of(file.file_name.as_str());
    let stem = names::stem_of(file_name.as_slice());
    Some(
        PackageData::plain(
            text::text_of(stem.as_slice()),
            text::text_of(name.as_slice()),
            String::new(),
            text::text_of(description.as_slice()),
            repo,
            if flatpak {
                1
            } else {
                0
            },
            true,
            false,
        ),
    )
}

/// The rows of the desktop files of a category.
pub open spec fn entry_rows(files: Seq<MenuFileView>, category: Seq<char>) -> Seq<PackageDataView>
    decreases files.len(),
{
    if files.len() == 0 {
        Seq::empty()
    } else if names::names_desktop_file(files.last().file_name) {
        match entry_row(files.last(), category) {
            Some(row) => entry_rows(files.drop_last(), category).push(row),
            None => entry_rows(files.drop_last(), category),
        }
    } else {
        entry_rows(files.drop_last(), category)
    }
}

/// The rows of a category in the catalogues.
pub open spec fn catalogue_rows(files: Seq<Seq<u8>>, category: Seq<char>) -> Seq<PackageDataView>
    decreases files.len(),
{
    if files.len() == 0 {
        Seq::empty()
    } else {
        catalogue_rows(files.drop_last(), category) + appstream::category_rows(
            bytes::gunzipped(files.last()),
            category,
        )
    }
}

/// The keys by which rows are sorted: what they show, in lower case.
pub open spec fn sort_keys(v: Seq<PackageDataView>) -> Seq<Seq<char>> {
    v.map_values(|p: PackageDataView| text::lowercase(p.display_name))
}

/// The names of rows.
pub open spec fn row_names(v: Seq<PackageDataView>) -> Seq<Seq<char>> {
    v.map_values(|p: PackageDataView| p.name)
}

/// Rows in the order of what they show, without those whose name a row before has.
pub open spec fn arranged(v: Seq<PackageDataView>) -> Seq<PackageDataView> {
    let sorted = order::pick(v, order::sorted_order(sort_keys(v)));
    order::pick(sorted, order::distinct(row_names(sorted), sorted.len()))
}

/// The rows at some positions.
fn pick_rows(v: &Vec<PackageData>, o: &Vec<usize>) -> (r: Vec<PackageData>)
    requires
        forall|i: int| 0 <= i < o@.len() ==> (#[trigger] o@[i]) < v@.len(),
    ensures
        ui::rows(r@) == order::pick(ui::rows(v@), order::indices(o@)),
{
    let ghost wanted = order::pick(ui::rows(v@), order::indices(o@));
    let mut r: Vec<PackageData> = Vec::new();
    let mut i: usize = 0;
    while i < o.len()
        invariant
            i <= o@.len(),
            wanted == order::pick(ui::rows(v@), order::indices(o@)),
            forall|k: int| 0 <= k < o@.len() ==> (#[trigger] o@[k]) < v@.len(),
            ui::rows(r@) == wanted.take(i as int),
        decreases o@.len() - i,
    {
        let ghost before = ui::rows(r@);
        r.push(v[o[i]].clone());
        assert(wanted[i as int] == v@[o@[i as int] as int]@);
        assert(ui::rows(r@) =~= before.push(wanted[i as int]));
        assert(wanted.take(i + 1) =~= wanted.take(i as int).push(wanted[i as int]));
        i += 1;
    }
    assert(wanted.take(wanted.len() as int) =~= wanted);
    r
}

/// Sorts rows by what they show and removes duplicates by name.
pub fn arrange(v: &Vec<PackageData>) -> (r: Vec<PackageData>)
    ensures
        ui::rows(r@) == arranged(ui::rows(v@)),
{
    let ghost all = ui::rows(v@);
    let mut keys: Vec<Vec<char>> = Vec::new();
    let mut i: usize = 0;
    while i < v.len()
        invariant
            i <= v@.len(),
            all == ui::rows(v@),
            text::texts(keys@) == sort_keys(all).take(i as int),
        decreases v@.len() - i,
    {
        let ghost before = text::texts(keys@);
        let shown = text::chars_of(v[i].display_name.as_str());
        let key = text::lower(shown.as_slice());
        keys.push(key);
        assert(sort_keys(all)[i as int] == key@);
        assert(text::texts(keys@) =~= before.push(key@));
        i += 1;
    }
    assert(sort_keys(all).take(all.len() as int) =~= sort_keys(all));
    let o = order::stable_order(&keys);
    assert(keys@.len() == text::texts(keys@).len());
    let sorted = pick_rows(v, &o);
    let ghost arranged_rows = ui::rows(sorted@);
    let mut names: Vec<Vec<char>> = Vec::new();
    let mut j: usize = 0;
    while j < sorted.len()
        invariant
            j <= sorted@.len(),
            arranged_rows == ui::rows(sorted@),
            text::texts(names@) == row_names(arranged_rows).take(j as int),
        decreases sorted@.len() - j,
    {
        let ghost before = text::texts(names@);
        let name = text::chars_of(sorted[j].name.as_str());
        names.push(name);
        assert(row_names(arranged_rows)[j as int] == name@);
        assert(text::texts(names@) =~= before.push(name@));
        j += 1;
    }
    assert(row_names(arranged_rows).take(arranged_rows.len() as int) =~= row_names(arranged_rows));
    assert(names@.len() == text::texts(names@).len());
    let kept = order::distinct_places(&names);
    pick_rows(&sorted, &kept)
}

/// Loads the packages of a category, given the files in the directories of the menu, of
/// which the desktop files count, and the gzip files of the catalogues.
pub fn load_category_packages(
    files: &Vec<MenuFile>,
    catalogues: &Vec<Vec<u8>>,
    category: &str,
) -> (r: UiMessage)
    ensures
        r@ == UiMessageView::CategoryPackages(
            arranged(
                entry_rows(menu_files(files@), category@) + catalogue_rows(
                    appstream::contents(catalogues@),
                    category@,
                ),
            ),
        ),
{
    let ghost menu = menu_files(files@);
    let ghost data = appstream::contents(catalogues@);
    let mut packages: Vec<PackageData> = Vec::new();
    let mut i: usize = 0;
    assert(menu.take(0) =~= Seq::empty());
    assert(ui::rows(packages@) =~= Seq::empty());
    while i < files.len()
        invariant
            i <= files@.len(),
            menu == menu_files(files@),
            ui::rows(packages@) == entry_rows(menu.take(i as int), category@),
        decreases files@.len() - i,
    {
        let ghost before = ui::rows(packages@);
        assert(menu.take(i + 1).drop_last() =~= menu.take(i as int));
        assert(menu.take(i + 1).last() == files@[i as int]@);
        if names::is_desktop_file(files[i].file_name.as_str()) {
            match parse_desktop_file(&files[i], category) {
                Some(row) => {
                    packages.push(row);
                    assert(ui::rows(packages@) =~= before.push(row@));
                },
                None => {},
            }
        }
        i += 1;
    }
    assert(menu.take(menu.len() as int) =~= menu);
    let ghost entries = ui::rows(packages@);
    let mut k: usize = 0;
    assert(data.take(0) =~= Seq::empty());
    assert(ui::rows(packages@) =~= entries + catalogue_rows(data.take(0), category@));
    while k < catalogues.len()
        invariant
            k <= catalogues@.len(),
            data == appstream::contents(catalogues@),
            ui::rows(packages@) == entries + catalogue_rows(data.take(k as int), category@),
        decreases catalogues@.len() - k,
    {
        let ghost before = ui::rows(packages@);
        assert(data.take(k + 1).drop_last() =~= data.take(k as int));
        assert(data.take(k + 1).last() == catalogues@[k as int]@);
        let mut found = appstream::parse_appstream_for_category(catalogues[k].as_slice(), category);
        let ghost more = ui::rows(found@);
        packages.append(&mut found);
        assert(ui::rows(packages@) =~= before + more);
        assert(before + more =~= entries + (catalogue_rows(data.take(k as int), category@) + more));
        k += 1;
    }
    assert(data.take(data.len() as int) =~= data);
    UiMessage::CategoryPackages(arrange(&packages))
}

/// The rows of a category ascend by what they show, no two of them have the same name,
/// and every name that was found is among them.
pub proof fn categories_are_arranged(v: Seq<PackageDataView>)
    ensures
        row_names(arranged(v)).no_duplicates(),
        ({
            let a = arranged(v);
            &&& forall|i: int, j: int|
                #![trigger a[i], a[j]]
                0 <= i < j < a.len() ==> order::lex_le(
                    text::lowercase(a[i].display_name),
                    text::lowercase(a[j].display_name),
                )
            &&& forall|p: PackageDataView| #[trigger] a.contains(p) ==> v.contains(p)
            &&& forall|i: int|
                0 <= i < v.len() ==> row_names(a).contains((#[trigger] v[i]).name)
        }),
{
    let keys = sort_keys(v);
    order::sorting_is_a_stable_rearrangement(keys);
    let o = order::sorted_order(keys);
    let sorted = order::pick(v, o);
    let names = row_names(sorted);
    order::distinct_keys_stay(names, sorted.len());
    let kept = order::distinct(names, sorted.len());
    let a = arranged(v);
    assert(row_names(a) =~= order::pick(names, kept));
    assert forall|i: int, j: int| #![trigger a[i], a[j]] 0 <= i < j < a.len() implies order::lex_le(
        text::lowercase(a[i].display_name),
        text::lowercase(a[j].display_name),
    ) by {
        assert(kept[i] < kept[j]);
        assert(order::lex_le(keys[o[kept[i]]], keys[o[kept[j]]]));
    }
    assert forall|p: PackageDataView| #[trigger] a.contains(p) implies v.contains(p) by {
        let i = choose|i: int| 0 <= i < a.len() && a[i] == p;
        assert(0 <= kept[i] < sorted.len());
        assert(v[o[kept[i]]] == p);
    }
    assert forall|i: int| 0 <= i < v.len() implies row_names(a).contains((#[trigger] v[i]).name) by {
        assert(o.contains(i));
        let p = choose|p: int| 0 <= p < o.len() && o[p] == i;
        assert(names[p] == v[i].name);
    }
}

/// A line of a desktop file that sets the name, the generic name, the comment or the
/// categories does so, whatever was set before, and so does one that hides the file; any
/// other line changes nothing.
pub proof fn later_lines_count(ls: Seq<Seq<char>>, value: Seq<char>, line: Seq<char>)
    requires
        !value.contains('['),
    ensures
        entry(ls.push("Name="@ + value)) == (Entry { name: value, ..entry(ls) }),
        entry(ls.push("GenericName="@ + value)) == (Entry { generic_name: value, ..entry(ls) }),
        entry(ls.push("Comment="@ + value)) == (Entry { comment: value, ..entry(ls) }),
        entry(ls.push("Categories="@ + value)) == (Entry { categories: value, ..entry(ls) }),
        entry(ls.push("NoDisplay=true"@)) == (Entry { no_display: true, ..entry(ls) }),
        entry(ls.push("Hidden=true"@)) == (Entry { hidden: true, ..entry(ls) }),
        !text::starts_with(line, "Name="@) && !text::starts_with(line, "GenericName="@)
            && !text::starts_with(line, "Comment="@) && !text::starts_with(line, "Categories="@)
            && !text::starts_with(line, "NoDisplay=true"@) && !text::starts_with(
            line,
            "Hidden=true"@,
        ) ==> entry(ls.push(line)) == entry(ls),
        entry(Seq::empty()) == (Entry {
            name: Seq::empty(),
            generic_name: Seq::empty(),
            comment: Seq::empty(),
            categories: Seq::empty(),
            no_display: false,
            hidden: false,
        }),
{
    reveal_strlit("Name=");
    reveal_strlit("GenericName=");
    reveal_strlit("Comment=");
    reveal_strlit("Categories=");
    reveal_strlit("NoDisplay=true");
    reveal_strlit("Hidden=true");
    let none = Seq::<char>::empty();
    assert(!none.contains('['));
    text::setting("Name="@, value, '[');
    text::setting("GenericName="@, value, '[');
    text::setting("Comment="@, value, '[');
    text::setting("Categories="@, value, '[');
    text::setting("NoDisplay=true"@, none, '[');
    text::setting("Hidden=true"@, none, '[');
    assert("NoDisplay=true"@ + none =~= "NoDisplay=true"@);
    assert("Hidden=true"@ + none =~= "Hidden=true"@);
    text::starts_otherwise("GenericName="@ + value, "Name="@, 0);
    text::starts_otherwise("Comment="@ + value, "Name="@, 0);
    text::starts_otherwise("Comment="@ + value, "GenericName="@, 0);
    text::starts_otherwise("Categories="@ + value, "Name="@, 0);
    text::starts_otherwise("Categories="@ + value, "GenericName="@, 0);
    text::starts_otherwise("Categories="@ + value, "Comment="@, 1);
    text::starts_otherwise("NoDisplay=true"@, "Name="@, 1);
    text::starts_otherwise("NoDisplay=true"@, "GenericName="@, 0);
    text::starts_otherwise("NoDisplay=true"@, "Comment="@, 0);
    text::starts_otherwise("NoDisplay=true"@, "Categories="@, 0);
    text::starts_otherwise("Hidden=true"@, "Name="@, 0);
    text::starts_otherwise("Hidden=true"@, "GenericName="@, 0);
    text::starts_otherwise("Hidden=true"@, "Comment="@, 0);
    text::starts_otherwise("Hidden=true"@, "Categories="@, 0);
    text::starts_otherwise("Hidden=true"@, "NoDisplay=true"@, 0);
    assert(ls.push(line).drop_last() =~= ls);
    assert(ls.push("Name="@ + value).drop_last() =~= ls);
    assert(ls.push("GenericName="@ + value).drop_last() =~= ls);
    assert(ls.push("Comment="@ + value).drop_last() =~= ls);
    assert(ls.push("Categories="@ + value).drop_last() =~= ls);
    assert(ls.push("NoDisplay=true"@).drop_last() =~= ls);
    assert(ls.push("Hidden=true"@).drop_last() =~= ls);
}

/// An application is shown in a category exactly where its file has a name, is neither
/// hidden nor kept from display, and lists the category between semicolons. What is shown
/// is its file name without the extension, its name and its comment, or else its generic
/// name; it is a Flatpak application where its path says so.
pub proof fn applications_are_shown(f: MenuFileView, category: Seq<char>)
    ensures
        ({
            let e = entry(text::lines(f.content));
            let row = entry_row(f, category);
            let flatpak = text::has(f.path, "flatpak"@);
            &&& row is Some <==> e.name.len() > 0 && !e.hidden && !e.no_display && exists|k: int|
                0 <= k < text::split(e.categories, Sep::At(';')).len() && #[trigger] text::split(
                    e.categories,
                    Sep::At(';'),
                )[k] == category
            &&& row matches Some(p) ==> {
                &&& p.name == names::file_stem(f.file_name)
                &&& p.display_name == e.name
                &&& e.comment.len() > 0 ==> p.description == e.comment
                &&& e.comment.len() == 0 ==> p.description == e.generic_name
                &&& flatpak ==> p.repository == "flathub"@ && p.backend == 1
                &&& !flatpak ==> p.repository == "native"@ && p.backend == 0
                &&& p.installed
                &&& !p.has_update
                &&& p.version.len() == 0
            }
        }),
{
    let e = entry(text::lines(f.content));
    let all = text::split(e.categories, Sep::At(';'));
    if all.contains(category) {
        let k = choose|k: int| 0 <= k < all.len() && all[k] == category;
        assert(all[k] == category);
    }
}

/// A category is listed wherever it stands between semicolons or at an end.
pub proof fn categories_are_listed(a: Seq<char>, category: Seq<char>, b: Seq<char>)
    requires
        !category.contains(';'),
    ensures
        text::split(category, Sep::At(';')).contains(category),
        text::split(a.push(';') + category, Sep::At(';')).contains(category),
        text::split(a.push(';') + category.push(';') + b, Sep::At(';')).contains(category),
        text::split(category.push(';') + b, Sep::At(';')).contains(category),
{
    assert forall|i: int| 0 <= i < category.len() implies !Sep::At(';').splits(
        #[trigger] category[i],
    ) by {
        assert(category.contains(category[i]));
    }
    text::unsplit(category, Sep::At(';'));
    assert(seq![category][0] == category);
    text::split_behind(a, ';', category, Sep::At(';'));
    let two = a.push(';') + category;
    let parts = text::split(a, Sep::At(';')).push(category);
    assert(parts[parts.len() - 1] == category);
    pieces_stay(two, b, category);
    assert(two.push(';') + b =~= a.push(';') + category.push(';') + b);
    pieces_stay(category, b, category);
}

/// A piece stays one, whatever follows behind a semicolon.
proof fn pieces_stay(a: Seq<char>, b: Seq<char>, piece: Seq<char>)
    requires
        text::split(a, Sep::At(';')).contains(piece),
    ensures
        text::split(a.push(';') + b, Sep::At(';')).contains(piece),
        text::split(a.push(';') + b, Sep::At(';')).len() > text::split(a, Sep::At(';')).len(),
        text::split(a.push(';') + b, Sep::At(';')).take(
            text::split(a, Sep::At(';')).len() as int,
        ) == text::split(a, Sep::At(';')),
    decreases b.len(),
{
    let s = a.push(';') + b;
    let parts = text::split(a, Sep::At(';'));
    let now = text::split(s, Sep::At(';'));
    if b.len() == 0 {
        text::split_behind(a, ';', b, Sep::At(';'));
        assert(now.take(parts.len() as int) =~= parts);
    } else {
        pieces_stay(a, b.drop_last(), piece);
        assert(s.drop_last() =~= a.push(';') + b.drop_last());
        let before = text::split(s.drop_last(), Sep::At(';'));
        assert forall|i: int| 0 <= i < parts.len() implies now[i] == parts[i] by {
            assert(before.take(parts.len() as int)[i] == before[i]);
            assert(now[i] == before[i]);
        }
        assert(now.take(parts.len() as int) =~= parts);
    }
    let k = choose|k: int| 0 <= k < parts.len() && parts[k] == piece;
    assert(now.take(parts.len() as int)[k] == now[k]);
}

/// All desktop files of the menu are looked at, in order, and no other files.
pub proof fn all_desktop_files_are_read(files: Seq<MenuFileView>, category: Seq<char>)
    ensures
        entry_rows(files, category) == files.filter(
            |f: MenuFileView|
                names::file_extension(f.file_name) == Some("desktop"@) && entry_row(f, category)
                    is Some,
        ).map_values(|f: MenuFileView| entry_row(f, category).unwrap()),
    decreases files.len(),
{
    reveal(Seq::filter);
    if files.len() > 0 {
        all_desktop_files_are_read(files.drop_last(), category);
    }
    assert(entry_rows(files, category) =~= files.filter(
        |f: MenuFileView|
            names::file_extension(f.file_name) == Some("desktop"@) && entry_row(f, category)
                is Some,
    ).map_values(|f: MenuFileView| entry_row(f, category).unwrap()));
}

/// All catalogues are read, one after the other.
pub proof fn all_catalogues_are_read(files: Seq<Seq<u8>>, file: Seq<u8>, category: Seq<char>)
    ensures
        catalogue_rows(Seq::empty(), category).len() == 0,
        catalogue_rows(files.push(file), category) == catalogue_rows(files, category)
            + appstream::category_rows(bytes::gunzipped(file), category),
{
    assert(files.push(file).drop_last() =~= files);
}

} // verus!
