//! Names for people: what the desktop files call a package, and what to make of its
//! own name otherwise.
use crate::bytes;
use crate::text;
use crate::text::Sep;
use vstd::hash_map::StringHashMap;
use vstd::prelude::*;
use vstd::string::*;

verus! {

broadcast use vstd::seq_lib::group_seq_properties;

/// Names by the lower case of what they are a name for.
pub struct NameMap {
    map: StringHashMap<String>,
}

impl View for NameMap {
    type V = Map<Seq<char>, Seq<char>>;

    closed spec fn view(&self) -> Map<Seq<char>, Seq<char>> {
        self.map@.map_values(|s: String| s@)
    }
}

impl NameMap {
    /// No names.
    pub fn new() -> (r: NameMap)
        ensures
            r@ == Map::<Seq<char>, Seq<char>>::empty(),
    {
        let r = NameMap { map: StringHashMap::new() };
        assert(r@ =~= Map::<Seq<char>, Seq<char>>::empty());
        r
    }

    /// Adds a name, in place of one that stood under the key before.
    pub fn insert(&mut self, key: String, name: String)
        ensures
            final(self)@ == old(self)@.insert(key@, name@),
    {
        let ghost before = self@;
        self.map.insert(key, name);
        assert(self@ =~= before.insert(key@, name@));
    }

    /// The name under a key.
    pub fn get(&self, key: &str) -> (r: Option<String>)
        ensures
            match r {
                Some(name) => self@.contains_key(key@) && self@[key@] == name@,
                None => !self@.contains_key(key@),
            },
    {
        match self.map.get(key) {
            Some(name) => Some(name.clone()),
            None => None,
        }
    }
}

/// A word with its first character in upper case.
pub open spec fn capitalized(word: Seq<char>) -> Seq<char> {
    if word.len() == 0 {
        word
    } else {
        text::uppercase(word[0]) + word.skip(1)
    }
}

/// A package name as a title: its words, which hyphens and underscores part,
/// capitalized and with spaces between them.
pub open spec fn titled(name: Seq<char>) -> Seq<char> {
    text::join(
        text::split(name, Sep::Either('-', '_')).map_values(|w: Seq<char>| capitalized(w)),
        seq![' '],
    )
}

/// The name to show for a package: what the map has for it in lower case, or else its
/// own name as a title.
pub open spec fn humanized(name: Seq<char>, names: Map<Seq<char>, Seq<char>>) -> Seq<char> {
    let key = text::lowercase(name);
    if names.contains_key(key) {
        names[key]
    } else {
        titled(name)
    }
}

/// A word with its first character in upper case.
fn capitalize(word: &[char]) -> (r: Vec<char>)
    ensures
        r@ == capitalized(word@),
{
    if word.len() == 0 {
        let r: Vec<char> = Vec::new();
        assert(r@ =~= word@);
        r
    } else {
        let mut r = text::upper(word[0]);
        let tail = text::cut(word, 1, word.len());
        assert(tail@ =~= word@.skip(1));
        text::extend(&mut r, tail.as_slice());
        r
    }
}

/// A package name as a title.
fn title(name: &[char]) -> (r: Vec<char>)
    ensures
        r@ == titled(name@),
{
    let words = text::pieces(name, Sep::Either('-', '_'));
    let ghost all = text::texts(words@);
    let ghost wanted = all.map_values(|w: Seq<char>| capitalized(w));
    let mut done: Vec<Vec<char>> = Vec::new();
    let mut i: usize = 0;
    while i < words.len()
        invariant
            i <= words@.len(),
            all == text::texts(words@),
            wanted == all.map_values(|w: Seq<char>| capitalized(w)),
            text::texts(done@) == wanted.take(i as int),
        decreases words@.len() - i,
    {
        let ghost before = text::texts(done@);
        let w = capitalize(words[i].as_slice());
        done.push(w);
        assert(wanted[i as int] == w@);
        assert(text::texts(done@) =~= before.push(w@));
        i += 1;
    }
    assert(wanted.take(wanted.len() as int) =~= wanted);
    let space: Vec<char> = vec![' '];
    assert(space@ =~= seq![' ']);
    let r = text::joined(&done, 0, done.len(), space.as_slice());
    assert(text::texts(done@).subrange(0, done@.len() as int) =~= wanted);
    r
}

/// Humanizes a package name: looks it up among the names of the desktop files, and
/// falls back to title case.
pub fn humanize_package_name(name: &str, desktop_map: &NameMap) -> (r: String)
    ensures
        r@ == humanized(name@, desktop_map@),
{
    let key = text::to_lowercase(name);
    match desktop_map.get(key.as_str()) {
        Some(human) => human,
        None => {
            let chars = text::chars_of(name);
            let t = title(chars.as_slice());
            text::text_of(t.as_slice())
        },
    }
}

/// A file name and the position of the last dot in it, where that parts a stem from an
/// extension: it is not the first character, and the name is not `..`.
pub open spec fn extension_dot(f: Seq<char>) -> Option<int> {
    let parts = text::split(f, Sep::At('.'));
    let at = f.len() - parts.last().len() - 1;
    if parts.len() >= 2 && at > 0 && f != seq!['.', '.'] {
        Some(at as int)
    } else {
        None
    }
}

/// A file name without its extension.
pub open spec fn file_stem(f: Seq<char>) -> Seq<char> {
    match extension_dot(f) {
        Some(at) => f.take(at),
        None => f,
    }
}

/// The extension of a file name.
pub open spec fn file_extension(f: Seq<char>) -> Option<Seq<char>> {
    match extension_dot(f) {
        Some(at) => Some(f.skip(at + 1)),
        None => None,
    }
}

/// The last piece is not longer than the text, and one separator stands in front of it
/// where there are more.
proof fn last_piece_fits(s: Seq<char>, sep: Sep)
    ensures
        text::split(s, sep).len() >= 1,
        text::split(s, sep).last().len() <= s.len(),
        text::split(s, sep).len() >= 2 ==> text::split(s, sep).last().len() < s.len(),
        text::split(s, sep).last() == s.skip(s.len() - text::split(s, sep).last().len()),
    decreases s.len(),
{
    text::split_has_a_piece(s, sep);
    if s.len() > 0 {
        last_piece_fits(s.drop_last(), sep);
        let before = text::split(s.drop_last(), sep);
        let after = text::split(s, sep);
        if sep.splits(s.last()) {
            assert(after.last() =~= s.skip(s.len() as int));
        } else {
            let at = s.len() - after.last().len();
            assert(after.last() == before.last().push(s.last()));
            assert(s.drop_last().skip(at).push(s.last()) =~= s.skip(at));
        }
    } else {
        assert(s.skip(0) =~= s);
    }
}

/// The position of the dot in front of the extension.
fn dot_of(f: &[char]) -> (r: Option<usize>)
    ensures
        text::position(r) == extension_dot(f@),
        r matches Some(at) ==> 0 < at < f@.len(),
{
    let parts = text::pieces(f, Sep::At('.'));
    let n: usize = parts.len();
    proof {
        last_piece_fits(f@, Sep::At('.'));
        assert(text::texts(parts@).last() == parts@[n - 1]@);
    }
    if n < 2 {
        return None;
    }
    let at: usize = f.len() - parts[n - 1].len() - 1;
    let up: Vec<char> = vec!['.', '.'];
    assert(up@ =~= seq!['.', '.']);
    if at > 0 && !text::same(f, up.as_slice()) {
        Some(at)
    } else {
        None
    }
}

/// A file name without its extension.
pub fn stem_of(f: &[char]) -> (r: Vec<char>)
    ensures
        r@ == file_stem(f@),
{
    match dot_of(f) {
        Some(at) => {
            let r = text::cut(f, 0, at);
            assert(r@ =~= f@.take(at as int));
            r
        },
        None => text::copy(f),
    }
}

/// A file name that ends in `.desktop` behind a stem.
pub open spec fn names_desktop_file(f: Seq<char>) -> bool {
    file_extension(f) == Some("desktop"@)
}

/// Whether a file name is that of a desktop file.
pub fn is_desktop_file(file_name: &str) -> (r: bool)
    ensures
        r == names_desktop_file(file_name@),
{
    let f = text::chars_of(file_name);
    match dot_of(f.as_slice()) {
        Some(at) => {
            let n: usize = f.len();
            let ext = text::cut(f.as_slice(), at + 1, n);
            assert(ext@ =~= f@.skip(at + 1));
            let wanted = text::chars_of("desktop");
            text::same(ext.as_slice(), wanted.as_slice())
        },
        None => false,
    }
}

/// What a desktop file says of a program.
#[verifier::ext_equal]
pub struct Launcher {
    pub name: Seq<char>,
    pub binary: Seq<char>,
    pub no_display: bool,
}

/// The program that a command line starts, without its directory.
pub open spec fn program(command: Seq<char>) -> Seq<char> {
    let words = text::words(command);
    if words.len() == 0 {
        Seq::empty()
    } else {
        text::split(words[0], Sep::At('/')).last()
    }
}

/// What the lines of a desktop file say of a program; a later line goes before an
/// earlier one. Lines with an opening square bracket, such as translations, give no
/// name.
pub open spec fn launcher(ls: Seq<Seq<char>>) -> Launcher
    decreases ls.len(),
{
    if ls.len() == 0 {
        Launcher { name: Seq::empty(), binary: Seq::empty(), no_display: false }
    } else {
        let before = launcher(ls.drop_last());
        let line = ls.last();
        if text::starts_with(line, "Name="@) && !line.contains('[') {
            Launcher { name: text::rest(line, "Name="@), ..before }
        } else if text::starts_with(line, "Exec="@) {
            Launcher { binary: program(text::rest(line, "Exec="@)), ..before }
        } else if text::starts_with(line, "NoDisplay=true"@) {
            Launcher { no_display: true, ..before }
        } else {
            before
        }
    }
}

/// The names with those of one desktop file: it is named by the stem of its file, where
/// that is known, and by its program, unless that has a name already. A file without a
/// name, or that is not to be displayed, adds nothing.
pub open spec fn with_launcher(
    names: Map<Seq<char>, Seq<char>>,
    file_name: Option<Seq<char>>,
    content: Seq<char>,
) -> Map<Seq<char>, Seq<char>> {
    let l = launcher(text::lines(content));
    if l.name.len() == 0 || l.no_display {
        names
    } else {
        let named = match file_name {
            Some(f) => names.insert(text::lowercase(file_stem(f)), l.name),
            None => names,
        };
        let key = text::lowercase(l.binary);
        if l.binary.len() == 0 || named.contains_key(key) {
            named
        } else {
            named.insert(key, l.name)
        }
    }
}

/// The program that a command line starts, without its directory.
fn program_of(command: &[char]) -> (r: Vec<char>)
    ensures
        r@ == program(command@),
{
    let words = text::words_of(command);
    let ghost all = text::texts(words@);
    if words.len() == 0 {
        Vec::new()
    } else {
        assert(all[0] == words@[0]@);
        let mut parts = text::pieces(words[0].as_slice(), Sep::At('/'));
        assert(text::texts(parts@).last() == parts@.last()@);
        parts.pop().unwrap()
    }
}

/// A file in a directory of desktop files: its name, where that is text, and what it
/// holds. Of a file whose name is not text, the extension is `desktop`.
#[derive(Debug)]
pub struct DesktopFile {
    /// The file's name in its directory.
    pub file_name: Option<String>,
    /// What the file holds.
    pub content: String,
}

/// What a `DesktopFile` holds.
#[verifier::ext_equal]
pub struct DesktopFileView {
    pub file_name: Option<Seq<char>>,
    pub content: Seq<char>,
}

impl View for DesktopFile {
    type V = DesktopFileView;

    open spec fn view(&self) -> DesktopFileView {
        DesktopFileView {
            file_name: match self.file_name {
                Some(f) => Some(f@),
                None => None,
            },
            content: self.content@,
        }
    }
}

/// What a list of desktop files holds.
pub open spec fn desktop_files(v: Seq<DesktopFile>) -> Seq<DesktopFileView> {
    v.map_values(|f: DesktopFile| f@)
}

/// A file that counts as a desktop file: by its name, or because its name is not text
/// and only its extension was read.
pub open spec fn is_launcher(f: DesktopFileView) -> bool {
    f.file_name matches Some(name) ==> names_desktop_file(name)
}

/// The names that files give, one after the other. Only desktop files count.
pub open spec fn launcher_names(files: Seq<DesktopFileView>) -> Map<Seq<char>, Seq<char>>
    decreases files.len(),
{
    if files.len() == 0 {
        Map::empty()
    } else if is_launcher(files.last()) {
        with_launcher(
            launcher_names(files.drop_last()),
            files.last().file_name,
            files.last().content,
        )
    } else {
        launcher_names(files.drop_last())
    }
}

impl NameMap {
    /// Adds the names of one desktop file.
    pub fn add_launcher(&mut self, file: &DesktopFile)
        ensures
            final(self)@ == with_launcher(old(self)@, file@.file_name, file@.content),
    {
        let chars = text::chars_of(file.content.as_str());
        let ls = text::lines_of(chars.as_slice());
        let ghost all = text::texts(ls@);
        let mut name: Vec<char> = Vec::new();
        let mut binary: Vec<char> = Vec::new();
        let mut no_display = false;
        let mut i: usize = 0;
        assert(all.take(0) =~= Seq::empty());
        while i < ls.len()
            invariant
                i <= ls@.len(),
                all == text::texts(ls@),
                (Launcher { name: name@, binary: binary@, no_display }) == launcher(all.take(i as int)),
            decreases ls@.len() - i,
        {
            let line = ls[i].as_slice();
            assert(all.take(i + 1).drop_last() =~= all.take(i as int));
            assert(all.take(i + 1).last() == line@);
            if text::begins_with(line, "Name=") && !text::has_char(line, '[') {
                name = text::rest_of(line, "Name=");
            } else if text::begins_with(line, "Exec=") {
                let command = text::rest_of(line, "Exec=");
                binary = program_of(command.as_slice());
            } else if text::begins_with(line, "NoDisplay=true") {
                no_display = true;
            }
            i += 1;
        }
        assert(all.take(all.len() as int) =~= all);
        if name.len() == 0 || no_display {
            return;
        }
        match &file.file_name {
            Some(f) => {
                let f = text::chars_of(f.as_str());
                let stem = stem_of(f.as_slice());
                let key = text::lower(stem.as_slice());
                self.insert(text::text_of(key.as_slice()), text::text_of(name.as_slice()));
            },
            None => {},
        }
        if binary.len() > 0 {
            let key = text::lower(binary.as_slice());
            let key = text::text_of(key.as_slice());
            if self.get(key.as_str()).is_none() {
                self.insert(key, text::text_of(name.as_slice()));
            }
        }
    }

    /// Adds the names that a package has from the desktop files it owns.
    pub fn add_owners(&mut self, listing: &str)
        ensures
            final(self)@ == with_owners(old(self)@, text::lines(listing@)),
    {
        let chars = text::chars_of(listing);
        let ls = text::lines_of(chars.as_slice());
        let ghost all = text::texts(ls@);
        let ghost start = self@;
        let mut i: usize = 0;
        assert(all.take(0) =~= Seq::empty());
        while i < ls.len()
            invariant
                i <= ls@.len(),
                all == text::texts(ls@),
                self@ == with_owners(start, all.take(i as int)),
            decreases ls@.len() - i,
        {
            let line = ls[i].as_slice();
            assert(all.take(i + 1).drop_last() =~= all.take(i as int));
            assert(all.take(i + 1).last() == line@);
            self.add_owner(line);
            i += 1;
        }
        assert(all.take(all.len() as int) =~= all);
    }

    /// Adds the name that a package has from one file it owns.
    fn add_owner(&mut self, line: &[char])
        ensures
            final(self)@ == with_owner(old(self)@, line@),
    {
        if !text::mentions(line, "/usr/share/applications/") || !text::ends_in(line, ".desktop") {
            return;
        }
        let space: Vec<char> = vec![' '];
        assert(space@ =~= seq![' ']);
        match text::find(line, space.as_slice(), 0) {
            None => {},
            Some(at) => {
                let package = text::cut(line, 0, at);
                assert(package@ =~= line@.take(at as int));
                let n: usize = line.len();
                let path = text::cut(line, at + 1, n);
                assert(path@ =~= line@.skip(at + 1));
                let path = text::trimmed(path.as_slice());
                let mut parts = text::pieces(path.as_slice(), Sep::At('/'));
                assert(text::texts(parts@).last() == parts@.last()@);
                let file = parts.pop().unwrap();
                let stem = stem_of(file.as_slice());
                let key = text::lower(stem.as_slice());
                let key = text::text_of(key.as_slice());
                match self.get(key.as_str()) {
                    Some(human) => {
                        let lower = text::lower(package.as_slice());
                        self.insert(text::text_of(lower.as_slice()), human);
                    },
                    None => {},
                }
            },
        }
    }
}

/// The names with that of one package which, as a line `package path` of a file listing
/// says, owns a desktop file that has a name.
pub open spec fn with_owner(names: Map<Seq<char>, Seq<char>>, line: Seq<char>) -> Map<
    Seq<char>,
    Seq<char>,
> {
    if text::has(line, "/usr/share/applications/"@) && text::ends_with(line, ".desktop"@) {
        match text::find_from(line, seq![' '], 0) {
            Some(at) => {
                let path = text::trim(line.skip(at + 1));
                let file = text::split(path, Sep::At('/')).last();
                let key = text::lowercase(file_stem(file));
                if names.contains_key(key) {
                    names.insert(text::lowercase(line.take(at)), names[key])
                } else {
                    names
                }
            },
            None => names,
        }
    } else {
        names
    }
}

/// The names with those of the packages of a file listing, line by line.
pub open spec fn with_owners(names: Map<Seq<char>, Seq<char>>, ls: Seq<Seq<char>>) -> Map<
    Seq<char>,
    Seq<char>,
>
    decreases ls.len(),
{
    if ls.len() == 0 {
        names
    } else {
        with_owner(with_owners(names, ls.drop_last()), ls.last())
    }
}

/// The names by which packages are shown: those of the desktop files, then those of the
/// packages that own them, where a listing of the packages' files could be had.
pub open spec fn desktop_names(files: Seq<DesktopFileView>, listing: Option<Seq<char>>) -> Map<
    Seq<char>,
    Seq<char>,
> {
    match listing {
        Some(l) => with_owners(launcher_names(files), text::lines(l)),
        None => launcher_names(files),
    }
}

/// Builds a mapping of package names to human-readable names from desktop files and,
/// where there is one, from the raw listing of the files that packages own.
pub fn build_desktop_name_map(files: &Vec<DesktopFile>, listing: &Option<Vec<u8>>) -> (r: NameMap)
    ensures
        r@ == desktop_names(
            desktop_files(files@),
            match *listing {
                Some(l) => Some(bytes::lossy_text(l@)),
                None => None,
            },
        ),
{
    let ghost all = desktop_files(files@);
    let mut r = NameMap::new();
    let mut i: usize = 0;
    assert(all.take(0) =~= Seq::empty());
    while i < files.len()
        invariant
            i <= files@.len(),
            all == desktop_files(files@),
            r@ == launcher_names(all.take(i as int)),
        decreases files@.len() - i,
    {
        assert(all.take(i + 1).drop_last() =~= all.take(i as int));
        assert(all.take(i + 1).last() == files@[i as int]@);
        let counts = match &files[i].file_name {
            Some(name) => is_desktop_file(name.as_str()),
            None => true,
        };
        if counts {
            r.add_launcher(&files[i]);
        }
        i += 1;
    }
    assert(all.take(all.len() as int) =~= all);
    match listing {
        Some(l) => {
            let t = bytes::lossy(l.as_slice());
            r.add_owners(t.as_str());
        },
        None => {},
    }
    r
}

/// A desktop file changes no name but the one under the stem of its own file name, and
/// takes none away.
pub proof fn launchers_keep_other_names(
    names: Map<Seq<char>, Seq<char>>,
    file_name: Option<Seq<char>>,
    content: Seq<char>,
    key: Seq<char>,
)
    requires
        names.contains_key(key),
    ensures
        with_launcher(names, file_name, content).contains_key(key),
        (file_name matches Some(f) ==> text::lowercase(file_stem(f)) != key) ==> with_launcher(
            names,
            file_name,
            content,
        )[key] == names[key],
{
}

/// A package that owns a desktop file which has a name is shown under that name.
pub proof fn owners_are_named(names: Map<Seq<char>, Seq<char>>, line: Seq<char>)
    requires
        text::has(line, "/usr/share/applications/"@),
        text::ends_with(line, ".desktop"@),
        text::find_from(line, seq![' '], 0) matches Some(at) && names.contains_key(
            text::lowercase(
                file_stem(text::split(text::trim(line.skip(at + 1)), Sep::At('/')).last()),
            ),
        ),
    ensures
        ({
            let at = text::find_from(line, seq![' '], 0).unwrap();
            humanized(line.take(at), with_owner(names, line)) == names[text::lowercase(
                file_stem(text::split(text::trim(line.skip(at + 1)), Sep::At('/')).last()),
            )]
        }),
{
}

/// A name is shown word by word: the words stand between hyphens and underlines, each gets
/// its first letter in upper case, and blanks stand between them.
pub proof fn words_are_capitalized(a: Seq<char>, c: char, word: Seq<char>)
    requires
        c == '-' || c == '_',
        !word.contains('-'),
        !word.contains('_'),
    ensures
        titled(word) == (if word.len() > 0 {
            text::uppercase(word[0]) + word.skip(1)
        } else {
            word
        }),
        titled(a.push(c) + word) == titled(a) + seq![' '] + titled(word),
{
    let sep = Sep::Either('-', '_');
    assert forall|i: int| 0 <= i < word.len() implies !sep.splits(#[trigger] word[i]) by {
        assert(word.contains(word[i]));
    }
    text::unsplit(word, sep);
    text::split_behind(a, c, word, sep);
    text::split_has_a_piece(a, sep);
    let parts = text::split(a, sep);
    let shown = parts.map_values(|w: Seq<char>| capitalized(w));
    assert(seq![word].map_values(|w: Seq<char>| capitalized(w)) =~= seq![capitalized(word)]);
    assert(parts.push(word).map_values(|w: Seq<char>| capitalized(w)) =~= shown.push(
        capitalized(word),
    ));
    assert(shown.push(capitalized(word)).drop_last() =~= shown);
}

/// A package is shown under the name that a desktop file gives it, found by its own name in
/// lower case, and else under its own name word by word.
pub proof fn known_names_come_first(name: Seq<char>, names: Map<Seq<char>, Seq<char>>)
    ensures
        names.contains_key(text::lowercase(name)) ==> humanized(name, names)
            == names[text::lowercase(name)],
        !names.contains_key(text::lowercase(name)) ==> humanized(name, names) == titled(name),
{
}

/// The extension of a file is what stands behind its last dot, and the stem what stands in
/// front of it; a name without a dot, or with one only at its front, is all stem.
pub proof fn files_have_stems(stem: Seq<char>, extension: Seq<char>)
    requires
        !extension.contains('.'),
    ensures
        stem.len() > 0 && stem != seq!['.'] ==> file_stem(stem.push('.') + extension) == stem
            && file_extension(stem.push('.') + extension) == Some(extension),
        file_stem(extension) == extension,
        file_extension(extension) is None,
        file_stem(seq!['.'] + extension) == seq!['.'] + extension,
{
    let f = stem.push('.') + extension;
    text::split_appended(stem, '.', extension);
    text::split_has_a_piece(stem, Sep::At('.'));
    assert(f.take(stem.len() as int) =~= stem);
    assert(f.skip(stem.len() as int + 1) =~= extension);
    if f == seq!['.', '.'] {
        assert(f.len() == 2);
        assert(f[0] == '.');
        if stem.len() > 0 {
            assert(stem =~= seq!['.']);
        }
    }
    assert forall|i: int| 0 <= i < extension.len() implies !Sep::At('.').splits(
        #[trigger] extension[i],
    ) by {
        assert(extension.contains(extension[i]));
    }
    text::unsplit(extension, Sep::At('.'));
    let none = Seq::<char>::empty();
    text::split_appended(none, '.', extension);
    assert(none.push('.') + extension =~= seq!['.'] + extension);
}

/// A desktop file is one with that extension.
pub proof fn desktop_files_are_known(stem: Seq<char>, extension: Seq<char>)
    requires
        !extension.contains('.'),
        stem.len() > 0,
        stem != seq!['.'],
    ensures
        names_desktop_file(stem.push('.') + extension) <==> extension == "desktop"@,
{
    files_have_stems(stem, extension);
}

/// The program of a command line is its first word, without the directories.
pub proof fn programs_are_found(dir: Seq<char>, name: Seq<char>, args: Seq<char>)
    requires
        name.len() > 0,
        !name.contains('/'),
        forall|i: int| 0 <= i < name.len() ==> !text::is_space(#[trigger] name[i]),
        forall|i: int| 0 <= i < dir.len() ==> !text::is_space(#[trigger] dir[i]),
    ensures
        program(name) == name,
        program(dir.push('/') + name) == name,
        program(name.push(' ') + args) == name,
        program(dir.push('/') + name.push(' ') + args) == name,
        program(Seq::empty()).len() == 0,
{
    let path = dir.push('/') + name;
    assert forall|i: int| 0 <= i < path.len() implies !text::is_space(#[trigger] path[i]) by {
        if i < dir.len() {
            assert(path[i] == dir[i]);
        } else if i > dir.len() {
            assert(path[i] == name[i - dir.len() - 1]);
        }
    }
    text::split_appended(dir, '/', name);
    assert forall|i: int| 0 <= i < name.len() implies !Sep::At('/').splits(#[trigger] name[i]) by {
        assert(name.contains(name[i]));
    }
    text::unsplit(name, Sep::At('/'));
    text::words_are_told_apart(name, ' ', name);
    text::words_are_told_apart(name, ' ', path);
    text::first_word_stays(name, args);
    text::first_word_stays(path, args);
    assert(path.push(' ') + args =~= dir.push('/') + name.push(' ') + args);
    text::no_words();
}

/// A line of a desktop file that sets its name, its command or that it is not displayed does
/// so, whatever was set before; any other line changes nothing. A name in a language does
/// not count.
pub proof fn later_lines_count(ls: Seq<Seq<char>>, value: Seq<char>, line: Seq<char>)
    requires
        !value.contains('['),
    ensures
        launcher(ls.push("Name="@ + value)) == (Launcher { name: value, ..launcher(ls) }),
        launcher(ls.push("Exec="@ + value)) == (Launcher { binary: program(value), ..launcher(ls) }),
        launcher(ls.push("NoDisplay=true"@)) == (Launcher { no_display: true, ..launcher(ls) }),
        !text::starts_with(line, "Name="@) && !text::starts_with(line, "Exec="@)
            && !text::starts_with(line, "NoDisplay=true"@) ==> launcher(ls.push(line)) == launcher(
            ls,
        ),
        launcher(Seq::empty()) == (Launcher {
            name: Seq::empty(),
            binary: Seq::empty(),
            no_display: false,
        }),
{
    reveal_strlit("Name=");
    reveal_strlit("Exec=");
    reveal_strlit("NoDisplay=true");
    assert(ls.push(line).drop_last() =~= ls);
    text::setting("Name="@, value, '[');
    text::setting("Exec="@, value, '[');
    assert(ls.push("Name="@ + value).drop_last() =~= ls);
    assert(ls.push("Exec="@ + value).drop_last() =~= ls);
    assert(ls.push("NoDisplay=true"@).drop_last() =~= ls);
    let none = Seq::<char>::empty();
    assert(!none.contains('['));
    text::setting("NoDisplay=true"@, none, '[');
    assert("NoDisplay=true"@ + none =~= "NoDisplay=true"@);
    text::starts_otherwise("Exec="@ + value, "Name="@, 0);
    text::starts_otherwise("NoDisplay=true"@, "Name="@, 1);
    text::starts_otherwise("NoDisplay=true"@, "Exec="@, 0);
}

/// What a desktop file names: the stem of its file name, in lower case, has the name that
/// the file sets, and so has its program, unless that has a name already. A file without a
/// name, or one that is not displayed, names nothing.
pub proof fn desktop_files_name_programs(
    names: Map<Seq<char>, Seq<char>>,
    f: Seq<char>,
    content: Seq<char>,
)
    ensures
        ({
            let l = launcher(text::lines(content));
            let after = with_launcher(names, Some(f), content);
            let key = text::lowercase(file_stem(f));
            let binary = text::lowercase(l.binary);
            let counts = l.name.len() > 0 && !l.no_display;
            &&& !counts ==> after == names
            &&& counts ==> after.contains_key(key) && after[key] == l.name
            &&& counts && l.binary.len() > 0 ==> after.contains_key(binary)
            &&& counts && l.binary.len() > 0 && !names.contains_key(binary) ==> after[binary]
                == l.name
            &&& counts && names.contains_key(binary) && binary != key ==> after[binary]
                == names[binary]
            &&& forall|k: Seq<char>| #[trigger]
                after.contains_key(k) && !names.contains_key(k) ==> k == key || k == binary
        }),
{
}

/// All desktop files count, one after the other, and no other file does.
pub proof fn all_desktop_files_count(files: Seq<DesktopFileView>, f: Seq<char>, content: Seq<char>)
    ensures
        launcher_names(Seq::empty()) == Map::<Seq<char>, Seq<char>>::empty(),
        file_extension(f) == Some("desktop"@) ==> launcher_names(
            files.push(DesktopFileView { file_name: Some(f), content }),
        ) == with_launcher(launcher_names(files), Some(f), content),
        file_extension(f) != Some("desktop"@) ==> launcher_names(
            files.push(DesktopFileView { file_name: Some(f), content }),
        ) == launcher_names(files),
{
    assert(files.push(DesktopFileView { file_name: Some(f), content }).drop_last() =~= files);
}

/// Every line of the listing of owners counts, one after the other, after the desktop files.
pub proof fn all_owners_count(
    files: Seq<DesktopFileView>,
    ls: Seq<Seq<char>>,
    line: Seq<char>,
    names: Map<Seq<char>, Seq<char>>,
    listing: Seq<char>,
)
    ensures
        with_owners(names, Seq::empty()) == names,
        with_owners(names, ls.push(line)) == with_owner(with_owners(names, ls), line),
        desktop_names(files, None) == launcher_names(files),
        desktop_names(files, Some(listing)) == with_owners(
            launcher_names(files),
            text::lines(listing),
        ),
{
    assert(ls.push(line).drop_last() =~= ls);
}

/// A package that owns the desktop file of a known stem gets its name, and a package that
/// owns another desktop file, or any other file, gets none.
pub proof fn owners_get_names(
    names: Map<Seq<char>, Seq<char>>,
    package: Seq<char>,
    stem: Seq<char>,
    other: Seq<char>,
)
    requires
        !package.contains(' '),
        stem.len() > 0,
        stem != seq!['.'],
        !stem.contains('/'),
        !text::has(other, "/usr/share/applications/"@) || !text::ends_with(other, ".desktop"@),
    ensures
        ({
            let line = package.push(' ') + "/usr/share/applications/"@ + stem + ".desktop"@;
            let key = text::lowercase(stem);
            &&& names.contains_key(key) ==> with_owner(names, line) == names.insert(
                text::lowercase(package),
                names[key],
            )
            &&& !names.contains_key(key) ==> with_owner(names, line) == names
        }),
        with_owner(names, other) == names,
{
    let line = owner_line(package, stem);
    assert(line =~= package.push(' ') + "/usr/share/applications/"@ + stem + ".desktop"@);
    owner_line_counts(package, stem);
    owner_line_parts(package, stem);
    owned_path_names(stem);
}

/// The line of a listing that says that a package owns a desktop file.
spec fn owner_line(package: Seq<char>, stem: Seq<char>) -> Seq<char> {
    package.push(' ') + owned_path(stem)
}

/// The path of a desktop file.
spec fn owned_path(stem: Seq<char>) -> Seq<char> {
    "/usr/share/applications/"@ + (stem + ".desktop"@)
}

/// The line is one of those that count.
proof fn owner_line_counts(package: Seq<char>, stem: Seq<char>)
    ensures
        text::has(owner_line(package, stem), "/usr/share/applications/"@),
        text::ends_with(owner_line(package, stem), ".desktop"@),
{
    let dir = "/usr/share/applications/"@;
    let line = owner_line(package, stem);
    let front = package.push(' ') + dir + stem;
    assert(line =~= package.push(' ') + dir + (stem + ".desktop"@));
    text::has_means_made_of(line, dir);
    assert(line =~= front + ".desktop"@);
    text::end_means_made_of(line, ".desktop"@);
}

/// The first blank of the line stands behind the package.
proof fn owner_line_parts(package: Seq<char>, stem: Seq<char>)
    requires
        !package.contains(' '),
    ensures
        text::find_from(owner_line(package, stem), seq![' '], 0) == Some(package.len() as int),
        owner_line(package, stem).take(package.len() as int) == package,
        owner_line(package, stem).skip(package.len() as int + 1) == owned_path(stem),
{
    let line = owner_line(package, stem);
    let path = owned_path(stem);
    assert(line =~= package + seq![' '] + path);
    text::first_behind(package, seq![' '], path);
    assert(line.skip(package.len() as int + 1) =~= path);
    assert(line.take(package.len() as int) =~= package);
}

/// The path names the file.
proof fn owned_path_names(stem: Seq<char>)
    requires
        stem.len() > 0,
        stem != seq!['.'],
        !stem.contains('/'),
    ensures
        file_stem(text::split(text::trim(owned_path(stem)), Sep::At('/')).last()) == stem,
{
    reveal_strlit("/usr/share/applications/");
    reveal_strlit(".desktop");
    reveal_strlit("desktop");
    let dir = "/usr/share/applications/"@;
    let file = stem + ".desktop"@;
    let path = owned_path(stem);
    let none = Seq::<char>::empty();
    assert(path.first() == '/') by {
        assert(path[0] == dir[0]);
    }
    assert(path.last() == 'p') by {
        assert(path[path.len() - 1] == ".desktop"@[7]);
    }
    text::ascii_spaces_and_digits('/');
    text::ascii_spaces_and_digits('p');
    text::trimming_finds_the_middle(none, path, none);
    assert(none + path + none =~= path);
    let front = dir.take(23);
    assert(dir =~= front.push('/'));
    assert(path =~= front.push('/') + file);
    assert(!file.contains('/')) by {
        if file.contains('/') {
            let i = choose|i: int| 0 <= i < file.len() && file[i] == '/';
            if i < stem.len() {
                assert(stem[i] == '/');
            } else {
                assert(".desktop"@[i - stem.len()] == '/');
            }
        }
    }
    text::split_appended(front, '/', file);
    assert(file =~= stem.push('.') + "desktop"@);
    files_have_stems(stem, "desktop"@);
}

} // verus!
