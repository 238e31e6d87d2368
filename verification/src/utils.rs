//! Small helpers of the user interface: sizes, terminal text and package files.
use crate::cache;
use crate::rounding;
use crate::terminal;
use crate::text;
use crate::text::Sep;
use crate::ui::{PackageData, PackageDataView};
use vstd::prelude::*;
use vstd::string::*;

verus! {

broadcast use vstd::seq_lib::group_seq_properties;

/// A number of tenths in decimal notation.
pub open spec fn tenths(n: nat) -> Seq<char> {
    text::decimal(n / 10) + seq!['.', text::digit_char((n % 10) as int)]
}

/// A number of bytes in a unit, as a double holds it, rounded to tenths. A value half
/// way between two tenths is rounded to the even one.
pub open spec fn in_unit(bytes: u64, unit: nat) -> Seq<char> {
    tenths(rounding::round_even(rounding::double(bytes as nat) * 10, unit))
}

/// A size for the user: in the largest of the units that it fills, with one digit
/// behind the point, or in bytes.
pub open spec fn size_text(bytes: u64) -> Seq<char> {
    if bytes >= 1_073_741_824 {
        in_unit(bytes, 1_073_741_824) + " GB"@
    } else if bytes >= 1_048_576 {
        in_unit(bytes, 1_048_576) + " MB"@
    } else if bytes >= 1024 {
        in_unit(bytes, 1024) + " KB"@
    } else {
        text::decimal(bytes as nat) + " B"@
    }
}

/// A number of bytes in a unit, rounded to tenths.
fn amount(bytes: u64, unit: u64) -> (r: Vec<char>)
    requires
        1024 <= unit,
    ensures
        r@ == in_unit(bytes, unit as nat),
{
    let held: u128 = rounding::as_double(bytes as u128);
    let n: u128 = rounding::rounded(held * 10, unit as u128);
    proof {
        let q: int = (held * 10) as int / unit as int;
        assert(q <= 0x500_0000_0000_0000) by (nonlinear_arith)
            requires
                held <= 2 * 0x1_0000_0000_0000_0000,
                1024 <= unit,
                q == (held * 10) as int / unit as int,
        ;
        assert(n <= q + 1);
    }
    let mut r: Vec<char> = text::decimal_of((n / 10) as u64);
    r.push('.');
    let d: u8 = (n % 10) as u8;
    r.push((0x30 + d) as char);
    assert(r@ =~= tenths(n as nat));
    r
}

/// Formats bytes into a human readable size.
pub fn format_size(bytes: u64) -> (r: String)
    ensures
        r@ == size_text(bytes),
{
    if bytes >= 1_073_741_824 {
        let n = amount(bytes, 1_073_741_824);
        text::text_of(n.as_slice()).concat(" GB")
    } else if bytes >= 1_048_576 {
        let n = amount(bytes, 1_048_576);
        text::text_of(n.as_slice()).concat(" MB")
    } else if bytes >= 1024 {
        let n = amount(bytes, 1024);
        text::text_of(n.as_slice()).concat(" KB")
    } else {
        let n = text::decimal_of(bytes);
        text::text_of(n.as_slice()).concat(" B")
    }
}

/// `s` from `i` on without its escape sequences and with a line feed in place of each
/// carriage return and line feed. A carriage return alone stays.
pub open spec fn clean_from(s: Seq<char>, i: int) -> Seq<char>
    decreases s.len() - i,
{
    if i < 0 || i >= s.len() {
        Seq::<char>::empty()
    } else if s[i] == '\x1b' {
        proof {
            terminal::escape_end_bounds(s, i);
        }
        clean_from(s, terminal::escape_end(s, i))
    } else if s[i] == '\r' && i + 1 < s.len() && s[i + 1] == '\n' {
        seq!['\n'] + clean_from(s, i + 2)
    } else {
        seq![s[i]] + clean_from(s, i + 1)
    }
}

/// Clean text holds no escape character.
pub proof fn clean_text_has_no_escape(s: Seq<char>, i: int)
    ensures
        !clean_from(s, i).contains('\x1b'),
    decreases s.len() - i,
{
    if 0 <= i < s.len() {
        if s[i] == '\x1b' {
            terminal::escape_end_bounds(s, i);
            clean_text_has_no_escape(s, terminal::escape_end(s, i));
        } else if s[i] == '\r' && i + 1 < s.len() && s[i + 1] == '\n' {
            clean_text_has_no_escape(s, i + 2);
        } else {
            clean_text_has_no_escape(s, i + 1);
        }
    }
}

/// Text without an escape character and without a carriage return in front of a line
/// feed is left as it is.
pub proof fn clean_text_is_kept(s: Seq<char>, i: int)
    requires
        0 <= i <= s.len(),
        !s.contains('\x1b'),
        forall|k: int| 0 <= k < s.len() - 1 && #[trigger] s[k] == '\r' ==> s[k + 1] != '\n',
    ensures
        clean_from(s, i) == s.skip(i),
    decreases s.len() - i,
{
    if i < s.len() {
        assert(s.contains(s[i]));
        clean_text_is_kept(s, i + 1);
        assert(s.skip(i) =~= seq![s[i]] + s.skip(i + 1));
    } else {
        assert(s.skip(i) =~= Seq::<char>::empty());
    }
}

/// Strips ANSI escape sequences for clean display.
///
/// Handles control sequences (`ESC[...`), operating system commands (`ESC]...`) and
/// simple escapes of one character, and normalizes the line endings of a terminal
/// (`\r\n` becomes `\n`). A bare `\r`, as progress bars use it, is preserved.
pub fn strip_ansi(input: &str) -> (r: String)
    ensures
        r@ == clean_from(input@, 0),
{
    let chars = text::chars_of(input);
    let s = chars.as_slice();
    let n: usize = s.len();
    let mut r: Vec<char> = Vec::new();
    let mut i: usize = 0;
    assert(r@ + clean_from(s@, 0) =~= clean_from(s@, 0));
    while i < n
        invariant
            n == s@.len(),
            i <= n,
            r@ + clean_from(s@, i as int) == clean_from(s@, 0),
        decreases n - i,
    {
        let ghost before = r@;
        if s[i] == '\x1b' {
            i = terminal::skip_escape(s, i);
        } else if s[i] == '\r' && i + 1 < n && s[i + 1] == '\n' {
            r.push('\n');
            assert(r@ + clean_from(s@, i + 2) =~= before + clean_from(s@, i as int));
            i += 2;
        } else {
            r.push(s[i]);
            assert(r@ + clean_from(s@, i + 1) =~= before + clean_from(s@, i as int));
            i += 1;
        }
    }
    assert(r@ =~= clean_from(s@, 0));
    text::text_of(r.as_slice())
}

/// A terminal that is written to: the lines that are committed, the line that is written,
/// and where on it the next character goes.
#[verifier::ext_equal]
pub struct Screen {
    pub done: Seq<char>,
    pub line: Seq<char>,
    pub at: int,
}

/// One character more: a line feed commits the line and starts a new one, a carriage
/// return goes back to the start of the line, anything else overwrites what stands there,
/// or is written behind the line.
pub open spec fn put(p: Screen, c: char) -> Screen {
    if c == '\n' {
        Screen { done: p.done + p.line.push('\n'), line: Seq::empty(), at: 0 }
    } else if c == '\r' {
        Screen { at: 0, ..p }
    } else if p.at < p.line.len() {
        Screen { line: p.line.update(p.at, c), at: p.at + 1, ..p }
    } else {
        Screen { line: p.line.push(c), at: p.at + 1, ..p }
    }
}

/// A text, character by character.
pub open spec fn drawn(p: Screen, t: Seq<char>) -> Screen
    decreases t.len(),
{
    if t.len() == 0 {
        p
    } else {
        put(drawn(p, t.drop_last()), t.last())
    }
}

/// A terminal that shows `b` and is written to at its end.
pub open spec fn on_screen(b: Seq<char>) -> Screen {
    let at = terminal::last_line_start(b);
    Screen { done: b.take(at), line: b.skip(at), at: b.len() - at }
}

/// What a terminal that showed `buffer` shows after `new_text`.
pub open spec fn overwritten(buffer: Seq<char>, new_text: Seq<char>) -> Seq<char> {
    let p = drawn(on_screen(buffer), new_text);
    p.done + p.line
}

/// Well formed: the committed lines end in a line feed, the line that is written holds
/// none, and the next character goes somewhere on it or behind it.
pub open spec fn sound(p: Screen) -> bool {
    &&& p.done.len() > 0 ==> p.done.last() == '\n'
    &&& !p.line.contains('\n')
    &&& 0 <= p.at <= p.line.len()
}

/// What a terminal shows tells its two parts apart.
proof fn shown_is_sound(b: Seq<char>)
    ensures
        sound(on_screen(b)),
        on_screen(b).done + on_screen(b).line == b,
{
    terminal::last_line_bounds(b);
    let p = on_screen(b);
    if p.line.contains('\n') {
        let i = choose|i: int| 0 <= i < p.line.len() && p.line[i] == '\n';
        assert(b[i + terminal::last_line_start(b)] == '\n');
    }
    assert(p.done + p.line =~= b);
}

/// A well formed terminal is found again in what it shows, written to at its end.
proof fn sound_is_shown(p: Screen)
    requires
        sound(p),
    ensures
        on_screen(p.done + p.line) == (Screen { at: p.line.len() as int, ..p }),
{
    let b = p.done + p.line;
    assert forall|i: int| p.done.len() <= i < b.len() implies #[trigger] b[i] != '\n' by {
        assert(p.line.contains(p.line[i - p.done.len()]));
    }
    if p.done.len() > 0 {
        assert(b[p.done.len() - 1] == p.done.last());
    }
    terminal::last_line_unique(b, p.done.len() as int);
    assert(b.take(p.done.len() as int) =~= p.done);
    assert(b.skip(p.done.len() as int) =~= p.line);
}

/// Writing keeps a terminal well formed, and what is committed stays.
proof fn drawing_is_sound(p: Screen, t: Seq<char>)
    requires
        sound(p),
    ensures
        sound(drawn(p, t)),
        drawn(p, t).done.len() >= p.done.len(),
        drawn(p, t).done.take(p.done.len() as int) == p.done,
    decreases t.len(),
{
    if t.len() > 0 {
        drawing_is_sound(p, t.drop_last());
        let q = drawn(p, t.drop_last());
        let r = drawn(p, t);
        if t.last() == '\n' {
            assert(r.done.last() == '\n');
            assert(r.done.take(p.done.len() as int) =~= q.done.take(p.done.len() as int));
        } else if t.last() != '\r' {
            if r.line.contains('\n') {
                let i = choose|i: int| 0 <= i < r.line.len() && r.line[i] == '\n';
                assert(q.line[i] == '\n');
            }
        }
    } else {
        assert(p.done.take(p.done.len() as int) =~= p.done);
    }
}

/// Writing two texts one after the other is writing them as one.
proof fn drawing_joins(p: Screen, x: Seq<char>, y: Seq<char>)
    ensures
        drawn(drawn(p, x), y) == drawn(p, x + y),
    decreases y.len(),
{
    if y.len() == 0 {
        assert(x + y =~= x);
    } else {
        drawing_joins(p, x, y.drop_last());
        assert((x + y).drop_last() =~= x + y.drop_last());
        assert((x + y).last() == y.last());
    }
}

/// Text without a carriage return leaves a terminal that is written to at its end so.
proof fn no_return_stays_at_the_end(p: Screen, x: Seq<char>)
    requires
        p.at == p.line.len(),
        !x.contains('\r'),
    ensures
        drawn(p, x).at == drawn(p, x).line.len(),
    decreases x.len(),
{
    if x.len() > 0 {
        let head = x.drop_last();
        assert(x.contains(x.last()));
        assert forall|c: char| head.contains(c) implies x.contains(c) by {
            let i = choose|i: int| 0 <= i < head.len() && head[i] == c;
            assert(x[i] == c);
        }
        no_return_stays_at_the_end(p, head);
    }
}

/// Text may arrive in two pieces: where the first leaves the terminal at the end of its
/// line, as every piece without a carriage return does, or the second moves away from
/// that line anyway.
pub proof fn terminal_text_in_pieces(buffer: Seq<char>, x: Seq<char>, y: Seq<char>)
    requires
        ({
            let p = drawn(on_screen(buffer), x);
            ||| !x.contains('\r')
            ||| p.at == p.line.len()
            ||| y.len() == 0
            ||| y[0] == '\r'
            ||| y[0] == '\n'
        }),
    ensures
        overwritten(overwritten(buffer, x), y) == overwritten(buffer, x + y),
{
    shown_is_sound(buffer);
    let p = drawn(on_screen(buffer), x);
    drawing_is_sound(on_screen(buffer), x);
    sound_is_shown(p);
    drawing_joins(on_screen(buffer), x, y);
    if !x.contains('\r') {
        no_return_stays_at_the_end(on_screen(buffer), x);
    }
    if p.at != p.line.len() && y.len() > 0 {
        let q = Screen { at: p.line.len() as int, ..p };
        let first = y.take(1);
        assert(first.drop_last() =~= Seq::<char>::empty());
        assert(drawn(p, first) == put(drawn(p, first.drop_last()), first.last()));
        assert(drawn(q, first) == put(drawn(q, first.drop_last()), first.last()));
        assert(drawn(p, first) == drawn(q, first));
        drawing_joins(p, first, y.skip(1));
        drawing_joins(q, first, y.skip(1));
        assert(first + y.skip(1) =~= y);
    }
}

/// Everything in front of the last line is kept as it is.
pub proof fn terminal_text_keeps_finished_lines(buffer: Seq<char>, new_text: Seq<char>)
    ensures
        text::starts_with(
            overwritten(buffer, new_text),
            buffer.take(terminal::last_line_start(buffer)),
        ),
{
    shown_is_sound(buffer);
    drawing_is_sound(on_screen(buffer), new_text);
    terminal::last_line_bounds(buffer);
    let kept = buffer.take(terminal::last_line_start(buffer));
    let p = drawn(on_screen(buffer), new_text);
    assert(overwritten(buffer, new_text).subrange(0, kept.len() as int) =~= p.done.take(
        kept.len() as int,
    ));
}

/// No text changes nothing.
pub proof fn no_terminal_text(buffer: Seq<char>)
    ensures
        overwritten(buffer, Seq::empty()) == buffer,
{
    shown_is_sound(buffer);
}

/// Simulates the carriage return of a terminal on a text buffer.
///
/// `\r` resets the write position to the start of the current line, which is then
/// overwritten in place. `\n` commits the current line and starts a new one. Only the
/// last line can be affected, so what stands in front of it is copied as it is.
pub fn apply_terminal_text(buffer: &str, new_text: &str) -> (r: String)
    ensures
        r@ == overwritten(buffer@, new_text@),
{
    let b = text::chars_of(buffer);
    let t = text::chars_of(new_text);
    let start: usize = terminal::last_line_of(b.as_slice());
    let n: usize = b.len();
    let mut done: Vec<char> = text::cut(b.as_slice(), 0, start);
    let mut line: Vec<char> = text::cut(b.as_slice(), start, n);
    let mut at: usize = n - start;
    let ghost before = on_screen(b@);
    assert(done@ =~= before.done);
    assert(line@ =~= before.line);
    let mut i: usize = 0;
    assert(t@.take(0) =~= Seq::<char>::empty());
    while i < t.len()
        invariant
            i <= t@.len(),
            at <= line@.len(),
            (Screen { done: done@, line: line@, at: at as int }) == drawn(
                before,
                t@.take(i as int),
            ),
        decreases t@.len() - i,
    {
        let c = t[i];
        assert(t@.take(i + 1).drop_last() =~= t@.take(i as int));
        if c == '\n' {
            line.push('\n');
            text::extend(&mut done, line.as_slice());
            line = Vec::new();
            at = 0;
        } else if c == '\r' {
            at = 0;
        } else {
            let end: usize = line.len();
            if at < end {
                line.set(at, c);
                at += 1;
            } else {
                line.push(c);
                at = line.len();
            }
        }
        i += 1;
    }
    assert(t@.take(t@.len() as int) =~= t@);
    text::extend(&mut done, line.as_slice());
    text::text_of(done.as_slice())
}

/// A path that names an Arch Linux package.
pub open spec fn names_package(path: Seq<char>) -> bool {
    ||| text::ends_with(path, ".pkg.tar.zst"@)
    ||| text::ends_with(path, ".pkg.tar.xz"@)
    ||| text::ends_with(path, ".pkg.tar.gz"@)
    ||| text::ends_with(path, ".pkg.tar"@)
}

/// Checks if a file path is a valid Arch Linux package.
pub fn is_arch_package(path: &str) -> (r: bool)
    ensures
        r == names_package(path@),
{
    let p = text::chars_of(path);
    let s = p.as_slice();
    text::ends_in(s, ".pkg.tar.zst") || text::ends_in(s, ".pkg.tar.xz") || text::ends_in(s, ".pkg.tar.gz")
        || text::ends_in(s, ".pkg.tar")
}

/// A file name without the extension of a package, where it has one.
pub open spec fn package_base(filename: Seq<char>) -> Option<Seq<char>> {
    match text::without_suffix(filename, ".pkg.tar.zst"@) {
        Some(b) => Some(b),
        None => match text::without_suffix(filename, ".pkg.tar.xz"@) {
            Some(b) => Some(b),
            None => match text::without_suffix(filename, ".pkg.tar.gz"@) {
                Some(b) => Some(b),
                None => text::without_suffix(filename, ".pkg.tar"@),
            },
        },
    }
}

/// The name and the version in a base name such as `name-version-release-arch`. One
/// with fewer than three parts is all name.
pub open spec fn name_and_version(base: Seq<char>) -> (Seq<char>, Seq<char>) {
    let parts = text::split(base, Sep::At('-'));
    let n = parts.len() as int;
    if n >= 3 {
        (text::join(parts.take(n - 3), seq!['-']), parts[n - 3] + seq!['-'] + parts[n - 2])
    } else {
        (base, "unknown"@)
    }
}

/// What a local package file is shown as.
pub open spec fn local_package(filename: Seq<char>, size: Option<u64>) -> Option<PackageDataView> {
    match package_base(filename) {
        Some(base) => {
            let (name, version) = name_and_version(base);
            Some(
                PackageDataView {
                    name,
                    display_name: name,
                    version,
                    description: "Local package: "@ + filename,
                    repository: "local"@,
                    backend: 2,
                    installed: false,
                    has_update: false,
                    installed_size: match size {
                        Some(n) => size_text(n),
                        None => "Unknown"@,
                    },
                    licenses: Seq::empty(),
                    url: Seq::empty(),
                    dependencies: Seq::empty(),
                    required_by: Seq::empty(),
                    icon_name: "package"@,
                    selected: false,
                },
            )
        },
        None => None,
    }
}

/// A file name without the extension of a package.
fn base_of(s: &[char]) -> (r: Option<Vec<char>>)
    ensures
        text::content(r) == package_base(s@),
{
    match text::before_words(s, ".pkg.tar.zst") {
        Some(b) => Some(b),
        None => match text::before_words(s, ".pkg.tar.xz") {
            Some(b) => Some(b),
            None => match text::before_words(s, ".pkg.tar.gz") {
                Some(b) => Some(b),
                None => text::before_words(s, ".pkg.tar"),
            },
        },
    }
}

/// The name and the version in a base name.
fn parts_of(base: &[char]) -> (r: (Vec<char>, Vec<char>))
    ensures
        (r.0@, r.1@) == name_and_version(base@),
{
    let parts = text::pieces(base, Sep::At('-'));
    let ghost all = text::texts(parts@);
    let n: usize = parts.len();
    if n >= 3 {
        let dash: Vec<char> = vec!['-'];
        assert(dash@ =~= seq!['-']);
        let name = text::joined(&parts, 0, n - 3, dash.as_slice());
        assert(all.subrange(0, n - 3) =~= all.take(n - 3));
        let mut version = text::cut(parts[n - 3].as_slice(), 0, parts[n - 3].len());
        version.push('-');
        text::extend(&mut version, parts[n - 2].as_slice());
        assert(version@ =~= all[n - 3] + seq!['-'] + all[n - 2]);
        (name, version)
    } else {
        let name = text::cut(base, 0, base.len());
        assert(name@ =~= base@);
        (name, text::chars_of("unknown"))
    }
}

/// Extracts package info from the name and, where it is known, the size of a local
/// package file.
pub fn get_local_package_info(filename: &str, size: Option<u64>) -> (r: Option<PackageData>)
    ensures
        match r {
            Some(p) => local_package(filename@, size) == Some(p@),
            None => local_package(filename@, size) is None,
        },
{
    let f = text::chars_of(filename);
    match base_of(f.as_slice()) {
        None => None,
        Some(base) => {
            let (name, version) = parts_of(base.as_slice());
            Some(
                PackageData {
                    name: text::text_of(name.as_slice()),
                    display_name: text::text_of(name.as_slice()),
                    version: text::text_of(version.as_slice()),
                    description: "Local package: ".to_owned().concat(filename),
                    repository: "local".to_owned(),
                    backend: 2,
                    installed: false,
                    has_update: false,
                    installed_size: match size {
                        Some(n) => format_size(n),
                        None => "Unknown".to_owned(),
                    },
                    licenses: String::new(),
                    url: String::new(),
                    dependencies: String::new(),
                    required_by: String::new(),
                    icon_name: "package".to_owned(),
                    selected: false,
                },
            )
        },
    }
}

/// Whatever stands in front of its extension is the base name of a package file.
proof fn base_is_found(base: Seq<char>, ending: Seq<char>)
    requires
        ending == ".pkg.tar.zst"@ || ending == ".pkg.tar.xz"@ || ending == ".pkg.tar.gz"@ || ending
            == ".pkg.tar"@,
    ensures
        package_base(base + ending) == Some(base),
{
    let all = base + ending;
    let n = all.len() as int;
    reveal_strlit(".pkg.tar.zst");
    reveal_strlit(".pkg.tar.xz");
    reveal_strlit(".pkg.tar.gz");
    reveal_strlit(".pkg.tar");
    assert(all.skip(n - ending.len()) =~= ending);
    assert(all.take(n - ending.len()) =~= base);
    assert(all[n - 1] == ending.last());
    assert(all[n - 2] == ending[ending.len() - 2]);
    assert(".pkg.tar.zst"@.last() == 't' && ".pkg.tar.xz"@.last() == 'z' && ".pkg.tar.gz"@.last()
        == 'z' && ".pkg.tar"@.last() == 'r');
    if text::ends_with(all, ".pkg.tar.zst"@) {
        assert(all.skip(n - 12)[11] == all[n - 1]);
    }
    if text::ends_with(all, ".pkg.tar.xz"@) {
        assert(all.skip(n - 11)[10] == all[n - 1]);
        assert(all.skip(n - 11)[9] == all[n - 2]);
    }
    if text::ends_with(all, ".pkg.tar.gz"@) {
        assert(all.skip(n - 11)[10] == all[n - 1]);
        assert(all.skip(n - 11)[9] == all[n - 2]);
    }
}

/// A package file `name-version-release-arch` with the extension of a package is shown
/// with its name, dashes and all, and with its version and release.
pub proof fn local_names_are_extracted(
    name: Seq<char>,
    version: Seq<char>,
    release: Seq<char>,
    arch: Seq<char>,
    ending: Seq<char>,
    size: Option<u64>,
)
    requires
        !version.contains('-'),
        !release.contains('-'),
        !arch.contains('-'),
        ending == ".pkg.tar.zst"@ || ending == ".pkg.tar.xz"@ || ending == ".pkg.tar.gz"@ || ending
            == ".pkg.tar"@,
    ensures
        local_package(cache::base_name(name, version, release, arch) + ending, size) matches Some(p)
            && p.name == name && p.version == version + seq!['-'] + release,
{
    let base = cache::base_name(name, version, release, arch);
    base_is_found(base, ending);
    cache::base_name_parts(name, version, release, arch);
    let head = text::split(name, Sep::At('-'));
    let parts = text::split(base, Sep::At('-'));
    text::split_has_a_piece(name, Sep::At('-'));
    assert(parts.take(parts.len() - 3) =~= head);
    text::join_undoes_split(name, '-');
}

/// A package file gives package info exactly where its name is that of a package.
pub proof fn local_package_iff_named(filename: Seq<char>, size: Option<u64>)
    ensures
        local_package(filename, size) is Some <==> names_package(filename),
{
}

/// A line of `os-release` that names XeroLinux.
pub open spec fn names_distro(line: Seq<char>) -> bool {
    let l = text::lowercase(line);
    &&& text::starts_with(l, "id="@) || text::starts_with(l, "name="@) || text::starts_with(
        l,
        "pretty_name="@,
    )
    &&& text::has(l, "xerolinux"@)
}

/// A line of `lsb-release` that names XeroLinux.
pub open spec fn describes_distro(line: Seq<char>) -> bool {
    let l = text::lowercase(line);
    &&& text::starts_with(l, "distrib_id="@) || text::starts_with(l, "distrib_description="@)
    &&& text::has(l, "xerolinux"@)
}

/// What `/etc/os-release` holds names XeroLinux.
pub open spec fn os_release_names(content: Seq<char>) -> bool {
    exists|i: int|
        0 <= i < text::lines(content).len() && names_distro(#[trigger] text::lines(content)[i])
}

/// What `/etc/lsb-release` holds names XeroLinux.
pub open spec fn lsb_release_names(content: Seq<char>) -> bool {
    exists|i: int|
        0 <= i < text::lines(content).len() && describes_distro(#[trigger] text::lines(content)[i])
}

/// Whether what `/etc/os-release` holds names XeroLinux.
fn in_os_release(content: &str) -> (r: bool)
    ensures
        r == os_release_names(content@),
{
    let chars = text::chars_of(content);
    let ls = text::lines_of(chars.as_slice());
    let ghost all = text::lines(content@);
    let mut i: usize = 0;
    while i < ls.len()
        invariant
            i <= ls@.len(),
            text::texts(ls@) == all,
            all == text::lines(content@),
            forall|k: int| 0 <= k < i ==> !names_distro(#[trigger] all[k]),
        decreases ls@.len() - i,
    {
        let lower = text::lower(ls[i].as_slice());
        let l = lower.as_slice();
        assert(text::texts(ls@)[i as int] == ls@[i as int]@);
        if (text::begins_with(l, "id=") || text::begins_with(l, "name=") || text::begins_with(l, "pretty_name="))
            && text::mentions(l, "xerolinux") {
            assert(names_distro(text::lines(content@)[i as int]));
            return true;
        }
        i += 1;
    }
    false
}

/// Whether what `/etc/lsb-release` holds names XeroLinux.
fn in_lsb_release(content: &str) -> (r: bool)
    ensures
        r == lsb_release_names(content@),
{
    let chars = text::chars_of(content);
    let ls = text::lines_of(chars.as_slice());
    let ghost all = text::lines(content@);
    let mut i: usize = 0;
    while i < ls.len()
        invariant
            i <= ls@.len(),
            text::texts(ls@) == all,
            all == text::lines(content@),
            forall|k: int| 0 <= k < i ==> !describes_distro(#[trigger] all[k]),
        decreases ls@.len() - i,
    {
        let lower = text::lower(ls[i].as_slice());
        let l = lower.as_slice();
        assert(text::texts(ls@)[i as int] == ls@[i as int]@);
        if (text::begins_with(l, "distrib_id=") || text::begins_with(l, "distrib_description="))
            && text::mentions(l, "xerolinux") {
            assert(describes_distro(text::lines(content@)[i as int]));
            return true;
        }
        i += 1;
    }
    false
}

/// Checks if the system is running XeroLinux, given what `/etc/os-release` and
/// `/etc/lsb-release` hold, where they can be read.
pub fn is_xerolinux_distro(os_release: &Option<String>, lsb_release: &Option<String>) -> (r: bool)
    ensures
        r == ((*os_release matches Some(c) && os_release_names(c@)) || (
        *lsb_release matches Some(c) && lsb_release_names(c@))),
{
    (match os_release {
        Some(c) => in_os_release(c.as_str()),
        None => false,
    }) || (match lsb_release {
        Some(c) => in_lsb_release(c.as_str()),
        None => false,
    })
}

/// A size is shown in the largest unit that it fills, to the nearest tenth of it, and in
/// bytes where it fills none.
pub proof fn sizes_are_shown_in_units(bytes: u64)
    requires
        bytes < 0x20_0000_0000_0000,
    ensures
        bytes < 1024 ==> size_text(bytes) == text::decimal(bytes as nat) + " B"@,
        1024 <= bytes < 1024 * 1024 ==> shows(size_text(bytes), bytes, 1024, " KB"@),
        1024 * 1024 <= bytes < 1024 * 1024 * 1024 ==> shows(
            size_text(bytes),
            bytes,
            1024 * 1024,
            " MB"@,
        ),
        1024 * 1024 * 1024 <= bytes ==> shows(size_text(bytes), bytes, 1024 * 1024 * 1024, " GB"@),
{
    rounding::small_numbers_are_exact(bytes as nat);
    let n = bytes as nat * 10;
    rounding::even_is_nearest(n, 1024);
    rounding::even_is_nearest(n, 1_048_576);
    rounding::even_is_nearest(n, 1_073_741_824);
    let k = rounding::round_even(n, 1024);
    let m = rounding::round_even(n, 1_048_576);
    let g = rounding::round_even(n, 1_073_741_824);
    if 1024 <= bytes < 1_048_576 {
        assert(size_text(bytes) =~= text::decimal(k / 10) + seq![
            '.',
            text::digit_char((k % 10) as int),
        ] + " KB"@);
        assert(is_nearest_tenth(k, bytes, 1024));
    } else if 1_048_576 <= bytes < 1_073_741_824 {
        assert(size_text(bytes) =~= text::decimal(m / 10) + seq![
            '.',
            text::digit_char((m % 10) as int),
        ] + " MB"@);
        assert(is_nearest_tenth(m, bytes, 1_048_576));
    } else if 1_073_741_824 <= bytes {
        assert(size_text(bytes) =~= text::decimal(g / 10) + seq![
            '.',
            text::digit_char((g % 10) as int),
        ] + " GB"@);
        assert(is_nearest_tenth(g, bytes, 1_073_741_824));
    }
}

/// As many tenths of a unit as are nearest to the bytes.
pub open spec fn is_nearest_tenth(t: nat, bytes: u64, unit: nat) -> bool {
    &&& 2 * (t * unit) <= 20 * bytes + unit
    &&& 20 * bytes <= 2 * (t * unit) + unit
}

/// A text that shows bytes in a unit, with one digit behind the point.
pub open spec fn shows(s: Seq<char>, bytes: u64, unit: nat, name: Seq<char>) -> bool {
    exists|t: nat| #[trigger]
        is_nearest_tenth(t, bytes, unit) && s == text::decimal(t / 10) + seq![
            '.',
            text::digit_char((t % 10) as int),
        ] + name
}

/// A text without carriage returns is cleaned of its escapes and of nothing else.
pub proof fn only_escapes_are_cleaned(s: Seq<char>, i: int)
    requires
        0 <= i,
        !s.contains('\r'),
    ensures
        clean_from(s, i) == terminal::visible(s, i),
    decreases s.len() - i,
{
    if i < s.len() {
        assert(s.contains(s[i]));
        if s[i] == '\x1b' {
            terminal::escape_end_bounds(s, i);
            only_escapes_are_cleaned(s, terminal::escape_end(s, i));
        } else {
            only_escapes_are_cleaned(s, i + 1);
        }
    }
}

/// What is clean of the rest of a text is what is clean of the rest.
proof fn clean_shifted(a: Seq<char>, b: Seq<char>, i: int)
    requires
        0 <= i,
    ensures
        clean_from(a + b, a.len() + i) == clean_from(b, i),
    decreases b.len() - i,
{
    if i < b.len() {
        assert((a + b)[a.len() + i] == b[i]);
        if b[i] == '\x1b' {
            terminal::escape_end_bounds(b, i);
            terminal::escape_end_bounds(a + b, a.len() + i);
            terminal::escape_end_shifted(a, b, i);
            clean_shifted(a, b, terminal::escape_end(b, i));
        } else if b[i] == '\r' && i + 1 < b.len() && b[i + 1] == '\n' {
            assert((a + b)[a.len() + i + 1] == b[i + 1]);
            clean_shifted(a, b, i + 2);
        } else {
            if i + 1 < b.len() {
                assert((a + b)[a.len() + i + 1] == b[i + 1]);
            }
            clean_shifted(a, b, i + 1);
        }
    }
}

/// A carriage return in front of a line feed is cleaned, another one stays, and so does any
/// other character that begins no escape.
pub proof fn line_ends_are_cleaned(c: char, b: Seq<char>)
    requires
        c != '\x1b',
    ensures
        clean_from(seq!['\r', '\n'] + b, 0) == seq!['\n'] + clean_from(b, 0),
        c != '\r' || b.len() == 0 || b[0] != '\n' ==> clean_from(seq![c] + b, 0) == seq![c]
            + clean_from(b, 0),
{
    let ends = seq!['\r', '\n'];
    clean_shifted(ends, b, 0);
    assert((ends + b)[0] == '\r' && (ends + b)[1] == '\n');
    clean_shifted(seq![c], b, 0);
    let s = seq![c] + b;
    assert(s[0] == c);
    if b.len() > 0 {
        assert(s[1] == b[0]);
    }
}

/// Plain text is drawn from where the terminal stands.
proof fn plain_is_drawn(p: Screen, y: Seq<char>)
    requires
        0 <= p.at <= p.line.len(),
        !y.contains('\n'),
        !y.contains('\r'),
    ensures
        drawn(p, y).done == p.done,
        drawn(p, y).at == p.at + y.len(),
        drawn(p, y).line == p.line.take(p.at) + y + (if p.at + y.len() < p.line.len() {
            p.line.skip(p.at + y.len())
        } else {
            Seq::empty()
        }),
    decreases y.len(),
{
    if y.len() == 0 {
        assert(p.line =~= p.line.take(p.at) + y + (if p.at < p.line.len() {
            p.line.skip(p.at)
        } else {
            Seq::empty()
        }));
    } else {
        let head = y.drop_last();
        let c = y.last();
        assert(y.contains(c));
        assert(!head.contains('\n')) by {
            if head.contains('\n') {
                let i = choose|i: int| 0 <= i < head.len() && head[i] == '\n';
                assert(y[i] == '\n');
            }
        }
        assert(!head.contains('\r')) by {
            if head.contains('\r') {
                let i = choose|i: int| 0 <= i < head.len() && head[i] == '\r';
                assert(y[i] == '\r');
            }
        }
        plain_is_drawn(p, head);
        let q = drawn(p, head);
        assert(put(q, c).line =~= p.line.take(p.at) + y + (if p.at + y.len() < p.line.len() {
            p.line.skip(p.at + y.len())
        } else {
            Seq::empty()
        }));
    }
}

/// What is drawn, and then a line feed, is the same with the line ended.
proof fn line_feed_ends_the_line(p: Screen, t: Seq<char>)
    ensures
        ({
            let q = drawn(p, t);
            let r = drawn(p, t.push('\n'));
            r.done + r.line == (q.done + q.line).push('\n')
        }),
{
    let q = drawn(p, t);
    assert(t.push('\n').drop_last() =~= t);
    assert(drawn(p, t.push('\n')) == put(q, '\n'));
    assert(put(q, '\n').done + put(q, '\n').line =~= (q.done + q.line).push('\n'));
}

/// Behind a carriage return text is drawn from the front of the line.
proof fn return_goes_to_the_front(p: Screen, y: Seq<char>)
    ensures
        drawn(p, seq!['\r'] + y) == drawn(Screen { at: 0, ..p }, y),
{
    let none = Seq::<char>::empty();
    assert(seq!['\r'].drop_last() =~= none);
    assert(drawn(p, none) == p);
    assert(drawn(p, seq!['\r']) == put(p, '\r'));
    drawing_joins(p, seq!['\r'], y);
}

/// Where a line is finished behind others, the terminal stands at its end.
proof fn line_is_on_screen(done: Seq<char>, line: Seq<char>)
    requires
        done.len() > 0 ==> done.last() == '\n',
        !line.contains('\n'),
    ensures
        on_screen(done + line) == (Screen { done, line, at: line.len() as int }),
{
    sound_is_shown(Screen { done, line, at: 0 });
}

/// Text goes on where the line ends, and a line feed ends the line, whole.
#[verifier::rlimit(30)]
pub proof fn terminal_text_goes_on(done: Seq<char>, line: Seq<char>, y: Seq<char>)
    requires
        done.len() > 0 ==> done.last() == '\n',
        !line.contains('\n'),
        !y.contains('\n'),
        !y.contains('\r'),
    ensures
        overwritten(done + line, y) == done + line + y,
        overwritten(done + line, y.push('\n')) == (done + line + y).push('\n'),
{
    let p = Screen { done, line, at: line.len() as int };
    line_is_on_screen(done, line);
    plain_is_drawn(p, y);
    line_feed_ends_the_line(p, y);
    assert(drawn(p, y).line =~= line + y);
    assert(done + (line + y) =~= done + line + y);
}

/// Behind a carriage return text takes the place of what the line held, as far as it goes,
/// and a line feed ends the line, whole.
#[verifier::rlimit(30)]
pub proof fn terminal_text_overwrites(done: Seq<char>, line: Seq<char>, y: Seq<char>)
    requires
        done.len() > 0 ==> done.last() == '\n',
        !line.contains('\n'),
        !y.contains('\n'),
        !y.contains('\r'),
    ensures
        ({
            let rest = if y.len() < line.len() {
                line.skip(y.len() as int)
            } else {
                Seq::empty()
            };
            let all = done + y + rest;
            &&& overwritten(done + line, seq!['\r'] + y) == all
            &&& overwritten(done + line, (seq!['\r'] + y).push('\n')) == all.push('\n')
        }),
{
    let p = Screen { done, line, at: line.len() as int };
    let back = Screen { at: 0, ..p };
    let rest = if y.len() < line.len() {
        line.skip(y.len() as int)
    } else {
        Seq::empty()
    };
    line_is_on_screen(done, line);
    return_goes_to_the_front(p, y);
    plain_is_drawn(back, y);
    line_feed_ends_the_line(p, seq!['\r'] + y);
    assert(drawn(back, y).line =~= y + rest);
    assert(done + (y + rest) =~= done + y + rest);
}

/// A file is a package exactly where its name ends as that of one, compressed in one of
/// three ways or not at all.
pub proof fn packages_are_known_by_ending(path: Seq<char>)
    ensures
        names_package(path) <==> (exists|base: Seq<char>|
            path == #[trigger] (base + ".pkg.tar.zst"@)) || (exists|base: Seq<char>|
            path == #[trigger] (base + ".pkg.tar.xz"@)) || (exists|base: Seq<char>|
            path == #[trigger] (base + ".pkg.tar.gz"@)) || (exists|base: Seq<char>|
            path == #[trigger] (base + ".pkg.tar"@)),
{
    text::end_means_made_of(path, ".pkg.tar.zst"@);
    text::end_means_made_of(path, ".pkg.tar.xz"@);
    text::end_means_made_of(path, ".pkg.tar.gz"@);
    text::end_means_made_of(path, ".pkg.tar"@);
}

/// The row of a local package says that it is one, from which file and how large, and that
/// it is not installed.
pub proof fn local_packages_are_shown(filename: Seq<char>, size: Option<u64>)
    ensures
        local_package(filename, size) matches Some(p) ==> {
            &&& p.display_name == p.name
            &&& p.description == "Local package: "@ + filename
            &&& p.repository == "local"@
            &&& p.backend == 2
            &&& !p.installed
            &&& !p.has_update
            &&& !p.selected
            &&& size matches Some(n) ==> p.installed_size == size_text(n)
            &&& size is None ==> p.installed_size == "Unknown"@
        },
{
}

/// A file of three parts has no name, and its version is made of the first two.
pub proof fn three_parts_are_a_version(version: Seq<char>, release: Seq<char>, arch: Seq<char>)
    requires
        !version.contains('-'),
        !release.contains('-'),
        !arch.contains('-'),
    ensures
        ({
            let (name, shown) = name_and_version(
                version.push('-') + release.push('-') + arch,
            );
            &&& name.len() == 0
            &&& shown == version + seq!['-'] + release
        }),
{
    let base = version.push('-') + release.push('-') + arch;
    let two = version.push('-') + release;
    assert forall|i: int| 0 <= i < version.len() implies !Sep::At('-').splits(
        #[trigger] version[i],
    ) by {
        assert(version.contains(version[i]));
    }
    text::unsplit(version, Sep::At('-'));
    text::split_appended(version, '-', release);
    text::split_appended(two, '-', arch);
    assert(two.push('-') + arch =~= base);
    let parts = text::split(base, Sep::At('-'));
    assert(parts =~= seq![version, release, arch]);
    assert(parts.take(0) =~= Seq::empty());
}

/// A name without two hyphens has no version in it.
pub proof fn short_names_have_no_version(base: Seq<char>)
    ensures
        text::split(base, Sep::At('-')).len() < 3 ==> name_and_version(base) == (base, "unknown"@),
{
}

/// The distribution is named by a line that begins as one of the fields that name it, and
/// in which its name occurs, in any case.
pub proof fn distributions_are_named(line: Seq<char>)
    ensures
        ({
            let l = text::lowercase(line);
            let named = exists|a: Seq<char>, b: Seq<char>| l == #[trigger] (a + "xerolinux"@ + b);
            &&& names_distro(line) <==> named && ((exists|b: Seq<char>|
                l == #[trigger] ("id="@ + b)) || (exists|b: Seq<char>|
                l == #[trigger] ("name="@ + b)) || (exists|b: Seq<char>|
                l == #[trigger] ("pretty_name="@ + b)))
            &&& describes_distro(line) <==> named && ((exists|b: Seq<char>|
                l == #[trigger] ("distrib_id="@ + b)) || (exists|b: Seq<char>|
                l == #[trigger] ("distrib_description="@ + b)))
        }),
{
    let l = text::lowercase(line);
    text::has_means_made_of(l, "xerolinux"@);
    text::start_means_made_of(l, "id="@);
    text::start_means_made_of(l, "name="@);
    text::start_means_made_of(l, "pretty_name="@);
    text::start_means_made_of(l, "distrib_id="@);
    text::start_means_made_of(l, "distrib_description="@);
}

/// One line that names the distribution is enough, wherever it stands.
pub proof fn any_line_may_name_the_distribution(v: Seq<Seq<char>>, k: int)
    requires
        0 <= k < v.len(),
        forall|i: int|
            0 <= i < v.len() ==> !(#[trigger] v[i]).contains('\n') && (v[i].len() > 0 ==> v[i].last()
                != '\r'),
    ensures
        ({
            let content = text::join(v, seq!['\n']).push('\n');
            &&& names_distro(v[k]) ==> os_release_names(content)
            &&& describes_distro(v[k]) ==> lsb_release_names(content)
            &&& (forall|i: int| 0 <= i < v.len() ==> !names_distro(#[trigger] v[i]))
                ==> !os_release_names(content)
            &&& (forall|i: int| 0 <= i < v.len() ==> !describes_distro(#[trigger] v[i]))
                ==> !lsb_release_names(content)
        }),
{
    text::written_lines_are_read(v);
    let content = text::join(v, seq!['\n']).push('\n');
    assert(text::lines(content)[k] == v[k]);
}

} // verus!
