//! The output of terminal programs: escape sequences, carriage returns and
//! progress bars.
use crate::text;
use crate::text::Sep;
use vstd::prelude::*;
use vstd::string::*;

verus! {

broadcast use vstd::seq_lib::group_seq_properties;

/// The first position at or behind `i` whose character lies outside the range
/// from `lo` to `hi`.
pub open spec fn run_end(s: Seq<char>, i: int, lo: u32, hi: u32) -> int
    decreases s.len() - i,
{
    if 0 <= i < s.len() && lo <= s[i] as u32 <= hi {
        run_end(s, i + 1, lo, hi)
    } else {
        i
    }
}

/// A run ends within the text.
proof fn run_end_bounds(s: Seq<char>, i: int, lo: u32, hi: u32)
    requires
        0 <= i <= s.len(),
    ensures
        i <= run_end(s, i, lo, hi) <= s.len(),
    decreases s.len() - i,
{
    if i < s.len() && lo <= s[i] as u32 <= hi {
        run_end_bounds(s, i + 1, lo, hi);
    }
}

/// The end of an operating system command whose text starts at `i`: behind the
/// bell or the string terminator that closes it, or the end of the text.
pub open spec fn command_end(s: Seq<char>, i: int) -> int
    decreases s.len() - i,
{
    if i < 0 || i >= s.len() {
        s.len() as int
    } else if s[i] == '\x07' {
        i + 1
    } else if s[i] == '\x1b' && i + 1 < s.len() && s[i + 1] == '\\' {
        i + 2
    } else {
        command_end(s, i + 1)
    }
}

/// A command ends within the text.
proof fn command_end_bounds(s: Seq<char>, i: int)
    requires
        0 <= i <= s.len(),
    ensures
        i <= command_end(s, i) <= s.len(),
    decreases s.len() - i,
{
    if i < s.len() && !(s[i] == '\x07') && !(s[i] == '\x1b' && i + 1 < s.len() && s[i + 1]
        == '\\') {
        command_end_bounds(s, i + 1);
    }
}

/// The end of the escape sequence whose escape character stands at `i`.
///
/// A control sequence takes its parameters, its intermediate characters and its
/// final character; an operating system command goes to its terminator; a
/// character set selection takes one character more; anything else is one
/// character long.
pub open spec fn escape_end(s: Seq<char>, i: int) -> int {
    if i + 1 >= s.len() {
        s.len() as int
    } else if s[i + 1] == '[' {
        let end = run_end(s, run_end(s, i + 2, 0x30, 0x3f), 0x20, 0x2f);
        if end < s.len() && 0x40 <= s[end] as u32 <= 0x7e {
            end + 1
        } else {
            end
        }
    } else if s[i + 1] == ']' {
        command_end(s, i + 2)
    } else if s[i + 1] == '(' || s[i + 1] == ')' || s[i + 1] == '*' || s[i + 1] == '+' {
        if i + 2 < s.len() {
            i + 3
        } else {
            s.len() as int
        }
    } else {
        i + 2
    }
}

/// An escape sequence is not empty and ends within the text.
pub proof fn escape_end_bounds(s: Seq<char>, i: int)
    requires
        0 <= i < s.len(),
    ensures
        i < escape_end(s, i) <= s.len(),
{
    if i + 1 < s.len() {
        if s[i + 1] == '[' {
            run_end_bounds(s, i + 2, 0x30, 0x3f);
            run_end_bounds(s, run_end(s, i + 2, 0x30, 0x3f), 0x20, 0x2f);
        } else if s[i + 1] == ']' {
            command_end_bounds(s, i + 2);
        }
    }
}

/// The first position at or behind `from` whose character lies outside the range.
fn skip_run(s: &[char], from: usize, lo: u32, hi: u32) -> (r: usize)
    requires
        from <= s@.len(),
    ensures
        r == run_end(s@, from as int, lo, hi),
        from <= r <= s@.len(),
{
    let mut i: usize = from;
    while i < s.len() && lo <= s[i] as u32 && s[i] as u32 <= hi
        invariant
            from <= i <= s@.len(),
            run_end(s@, from as int, lo, hi) == run_end(s@, i as int, lo, hi),
        decreases s@.len() - i,
    {
        i += 1;
    }
    i
}

/// The end of the escape sequence at `at`.
pub fn skip_escape(s: &[char], at: usize) -> (r: usize)
    requires
        at < s@.len(),
    ensures
        r == escape_end(s@, at as int),
        at < r <= s@.len(),
{
    let n: usize = s.len();
    if at + 1 >= n {
        return n;
    }
    let kind = s[at + 1];
    if kind == '[' {
        let params: usize = skip_run(s, at + 2, 0x30, 0x3f);
        let end: usize = skip_run(s, params, 0x20, 0x2f);
        if end < n && 0x40 <= s[end] as u32 && s[end] as u32 <= 0x7e {
            end + 1
        } else {
            end
        }
    } else if kind == ']' {
        let mut i: usize = at + 2;
        while i < n
            invariant
                n == s@.len(),
                at + 2 <= i <= n,
                command_end(s@, at + 2) == command_end(s@, i as int),
                at < n,
                s@[at + 1] == ']',
            decreases n - i,
        {
            if s[i] == '\x07' {
                return i + 1;
            }
            if s[i] == '\x1b' && i + 1 < n && s[i + 1] == '\\' {
                return i + 2;
            }
            i += 1;
        }
        n
    } else if kind == '(' || kind == ')' || kind == '*' || kind == '+' {
        if at + 2 < n {
            at + 3
        } else {
            n
        }
    } else {
        at + 2
    }
}

/// `s` from `i` on, without its escape sequences.
pub open spec fn visible(s: Seq<char>, i: int) -> Seq<char>
    decreases s.len() - i,
{
    if i < 0 || i >= s.len() {
        Seq::<char>::empty()
    } else if s[i] == '\x1b' {
        proof {
            escape_end_bounds(s, i);
        }
        visible(s, escape_end(s, i))
    } else {
        seq![s[i]] + visible(s, i + 1)
    }
}

/// Visible text holds no escape character.
pub proof fn visible_has_no_escape(s: Seq<char>, i: int)
    ensures
        !visible(s, i).contains('\x1b'),
    decreases s.len() - i,
{
    if 0 <= i < s.len() {
        if s[i] == '\x1b' {
            escape_end_bounds(s, i);
            visible_has_no_escape(s, escape_end(s, i));
        } else {
            visible_has_no_escape(s, i + 1);
        }
    }
}

/// What is left of a line once its carriage returns have taken effect: what stands
/// behind the last of them.
pub open spec fn after_return(line: Seq<char>) -> Seq<char>
    decreases line.len(),
{
    if line.len() == 0 || line.last() == '\r' {
        Seq::<char>::empty()
    } else {
        after_return(line.drop_last()).push(line.last())
    }
}

/// The lines that a screen shows for `t`.
pub open spec fn screen(t: Seq<char>) -> Seq<Seq<char>> {
    text::split(t, Sep::At('\n')).map_values(|l: Seq<char>| after_return(l))
}

/// The lines, without the last one where it is empty.
pub open spec fn without_open_line(shown: Seq<Seq<char>>) -> Seq<Seq<char>> {
    if shown.last().len() == 0 {
        shown.drop_last()
    } else {
        shown
    }
}

/// Terminal output as lines to show: escape sequences are taken out, a carriage
/// return drops what the line held so far, and a line that is still empty at the
/// end is left out.
pub open spec fn displayed(s: Seq<char>) -> Seq<char> {
    text::join(without_open_line(screen(visible(s, 0))), seq!['\n'])
}

/// One more character on the screen.
proof fn screen_push(t: Seq<char>, c: char)
    ensures
        screen(t).len() >= 1,
        screen(t.push(c)) == if c == '\n' {
            screen(t).push(Seq::<char>::empty())
        } else if c == '\r' {
            screen(t).update(screen(t).len() - 1, Seq::<char>::empty())
        } else {
            screen(t).update(screen(t).len() - 1, screen(t).last().push(c))
        },
{
    text::split_has_a_piece(t, Sep::At('\n'));
    let before = text::split(t, Sep::At('\n'));
    assert(t.push(c).drop_last() =~= t);
    let after = text::split(t.push(c), Sep::At('\n'));
    if c == '\n' {
        assert(after == before.push(Seq::<char>::empty()));
        assert(screen(t.push(c)) =~= screen(t).push(Seq::<char>::empty()));
    } else {
        let grown = before.last().push(c);
        assert(after == before.update(before.len() - 1, grown));
        assert(grown.drop_last() =~= before.last());
        assert(screen(t.push(c)) =~= screen(t).update(screen(t).len() - 1, after_return(grown)));
    }
}

/// Terminal output as lines to show.
pub fn strip_ansi(input: &str) -> (r: String)
    ensures
        r@ == displayed(input@),
{
    let chars = text::chars_of(input);
    let s = chars.as_slice();
    let n: usize = s.len();
    let mut lines: Vec<Vec<char>> = Vec::new();
    let mut current: Vec<char> = Vec::new();
    let mut i: usize = 0;
    let ghost mut shown = Seq::<char>::empty();
    assert(text::texts(lines@).push(current@) =~= screen(shown));
    assert(shown + visible(s@, 0) =~= visible(s@, 0));
    while i < n
        invariant
            n == s@.len(),
            i <= n,
            shown + visible(s@, i as int) == visible(s@, 0),
            text::texts(lines@).push(current@) == screen(shown),
        decreases n - i,
    {
        let c = s[i];
        if c == '\x1b' {
            i = skip_escape(s, i);
        } else {
            let ghost before = screen(shown);
            proof {
                screen_push(shown, c);
                assert(shown.push(c) + visible(s@, i + 1) =~= shown + visible(s@, i as int));
            }
            if c == '\r' {
                current = Vec::new();
                assert(text::texts(lines@).push(current@) =~= before.update(
                    before.len() - 1,
                    Seq::<char>::empty(),
                ));
            } else if c == '\n' {
                lines.push(current);
                current = Vec::new();
                assert(text::texts(lines@) =~= before);
                assert(text::texts(lines@).push(current@) =~= before.push(Seq::<char>::empty()));
            } else {
                let ghost held = current@;
                current.push(c);
                assert(text::texts(lines@).push(current@) =~= before.update(
                    before.len() - 1,
                    held.push(c),
                ));
            }
            proof {
                shown = shown.push(c);
            }
            i += 1;
        }
    }
    assert(shown =~= visible(s@, 0));
    let ghost all = screen(shown);
    assert(all.last() == current@);
    assert(all.drop_last() =~= text::texts(lines@));
    if current.len() > 0 {
        lines.push(current);
        assert(text::texts(lines@) =~= all);
    }
    let feed: Vec<char> = vec!['\n'];
    let r = text::joined(&lines, 0, lines.len(), feed.as_slice());
    assert(text::texts(lines@).subrange(0, lines@.len() as int) =~= without_open_line(all));
    assert(feed@ =~= seq!['\n']);
    text::text_of(r.as_slice())
}

/// The characters that progress bars are drawn with.
pub open spec fn is_bar(c: char) -> bool {
    ||| c == '#' || c == '.' || c == '-' || c == '=' || c == '>'
    ||| c == '█' || c == '░' || c == '▒' || c == '▓' || c == '▏'
    ||| c == '▎' || c == '▍' || c == '▌' || c == '▋' || c == '▊'
    ||| c == '▉' || c == '━' || c == '─' || c == '╸' || c == '╺'
    ||| c == ' '
}

/// How many characters of `s` belong to a progress bar.
pub open spec fn bar_count(s: Seq<char>) -> nat
    decreases s.len(),
{
    if s.len() == 0 {
        0
    } else {
        bar_count(s.drop_last()) + if is_bar(s.last()) { 1nat } else { 0nat }
    }
}

/// Whether a line is nothing but a progress bar: it is blank, or it has three
/// characters or more and most of them draw a bar.
pub open spec fn is_progress_bar(line: Seq<char>) -> bool {
    let t = text::trim(line);
    t.len() == 0 || (t.len() >= 3 && bar_count(t) > t.len() / 2)
}

/// Whether a line is nothing but a progress bar.
pub fn is_progress_bar_line(line: &[char]) -> (r: bool)
    ensures
        r == is_progress_bar(line@),
{
    let t = text::trimmed(line);
    let total: usize = t.len();
    if total == 0 {
        return true;
    }
    if total < 3 {
        return false;
    }
    let mut bars: usize = 0;
    let mut i: usize = 0;
    while i < total
        invariant
            total == t@.len(),
            i <= total,
            bars <= i,
            bars == bar_count(t@.take(i as int)),
        decreases total - i,
    {
        let c = t[i];
        assert(t@.take(i + 1).drop_last() =~= t@.take(i as int));
        if c == '#' || c == '.' || c == '-' || c == '=' || c == '>' || c == '█' || c == '░' || c
            == '▒' || c == '▓' || c == '▏' || c == '▎' || c == '▍' || c == '▌' || c == '▋' || c
            == '▊' || c == '▉' || c == '━' || c == '─' || c == '╸' || c == '╺' || c == ' ' {
            bars += 1;
        }
        i += 1;
    }
    assert(t@.take(total as int) =~= t@);
    bars > total / 2
}

/// Where the last line of `b` starts.
pub open spec fn last_line_start(b: Seq<char>) -> int
    decreases b.len(),
{
    if b.len() == 0 || b.last() == '\n' {
        b.len() as int
    } else {
        last_line_start(b.drop_last())
    }
}

/// A terminal that prints: the lines that are finished, and the line that is written.
#[verifier::ext_equal]
pub struct Printed {
    pub done: Seq<char>,
    pub line: Seq<char>,
}

/// One character more: a line feed finishes the line, a carriage return drops what it
/// held, anything else is written behind it.
pub open spec fn print(p: Printed, c: char) -> Printed {
    if c == '\n' {
        Printed { done: p.done + p.line.push('\n'), line: Seq::empty() }
    } else if c == '\r' {
        Printed { done: p.done, line: Seq::empty() }
    } else {
        Printed { done: p.done, line: p.line.push(c) }
    }
}

/// A text, character by character.
pub open spec fn printed(p: Printed, t: Seq<char>) -> Printed
    decreases t.len(),
{
    if t.len() == 0 {
        p
    } else {
        print(printed(p, t.drop_last()), t.last())
    }
}

/// A terminal that shows `b`.
pub open spec fn showing(b: Seq<char>) -> Printed {
    Printed { done: b.take(last_line_start(b)), line: b.skip(last_line_start(b)) }
}

/// What a terminal that showed `buffer` shows after `new_text`.
pub open spec fn terminal_text(buffer: Seq<char>, new_text: Seq<char>) -> Seq<char> {
    let p = printed(showing(buffer), new_text);
    p.done + p.line
}

/// The last line starts within the text, behind a line feed or at its front, and
/// holds no line feed.
pub proof fn last_line_bounds(b: Seq<char>)
    ensures
        0 <= last_line_start(b) <= b.len(),
        last_line_start(b) > 0 ==> b[last_line_start(b) - 1] == '\n',
        forall|i: int| last_line_start(b) <= i < b.len() ==> #[trigger] b[i] != '\n',
    decreases b.len(),
{
    if b.len() > 0 && b.last() != '\n' {
        last_line_bounds(b.drop_last());
        assert forall|i: int| last_line_start(b) <= i < b.len() implies #[trigger] b[i] != '\n' by {
            if i < b.len() - 1 {
                assert(b.drop_last()[i] == b[i]);
            }
        }
    }
}

/// Where the last line starts is fixed by what stands around it.
pub proof fn last_line_unique(b: Seq<char>, at: int)
    requires
        0 <= at <= b.len(),
        at > 0 ==> b[at - 1] == '\n',
        forall|i: int| at <= i < b.len() ==> #[trigger] b[i] != '\n',
    ensures
        last_line_start(b) == at,
{
    last_line_bounds(b);
    let l = last_line_start(b);
    if l < at {
        assert(b[at - 1] == '\n');
    } else if at < l {
        assert(b[l - 1] == '\n');
    }
}

/// Well formed: the finished lines end in a line feed, and the line that is written
/// holds none.
pub open spec fn sound(p: Printed) -> bool {
    &&& p.done.len() > 0 ==> p.done.last() == '\n'
    &&& !p.line.contains('\n')
}

/// What a terminal shows tells its two parts apart.
proof fn shown_is_sound(b: Seq<char>)
    ensures
        sound(showing(b)),
        showing(b).done + showing(b).line == b,
{
    last_line_bounds(b);
    let p = showing(b);
    if p.line.contains('\n') {
        let i = choose|i: int| 0 <= i < p.line.len() && p.line[i] == '\n';
        assert(b[i + last_line_start(b)] == '\n');
    }
    assert(p.done + p.line =~= b);
}

/// A well formed terminal is found again in what it shows.
proof fn sound_is_shown(p: Printed)
    requires
        sound(p),
    ensures
        showing(p.done + p.line) == p,
{
    let b = p.done + p.line;
    assert forall|i: int| p.done.len() <= i < b.len() implies #[trigger] b[i] != '\n' by {
        assert(p.line.contains(p.line[i - p.done.len()]));
    }
    if p.done.len() > 0 {
        assert(b[p.done.len() - 1] == p.done.last());
    }
    last_line_unique(b, p.done.len() as int);
    assert(b.take(p.done.len() as int) =~= p.done);
    assert(b.skip(p.done.len() as int) =~= p.line);
}

/// Printing keeps a terminal well formed, and what is finished stays.
proof fn printing_is_sound(p: Printed, t: Seq<char>)
    requires
        sound(p),
    ensures
        sound(printed(p, t)),
        printed(p, t).done.len() >= p.done.len(),
        printed(p, t).done.take(p.done.len() as int) == p.done,
    decreases t.len(),
{
    if t.len() > 0 {
        printing_is_sound(p, t.drop_last());
        let q = printed(p, t.drop_last());
        let r = printed(p, t);
        if t.last() == '\n' {
            assert(r.done.last() == '\n');
            assert(r.done.take(p.done.len() as int) =~= q.done.take(p.done.len() as int));
        } else if t.last() != '\r' {
            if r.line.contains('\n') {
                let i = choose|i: int| 0 <= i < r.line.len() && r.line[i] == '\n';
                assert(q.line[i] == '\n');
            }
        }
    } else {
        assert(p.done.take(p.done.len() as int) =~= p.done);
    }
}

/// Printing two texts one after the other is printing them as one.
proof fn printing_joins(p: Printed, x: Seq<char>, y: Seq<char>)
    ensures
        printed(printed(p, x), y) == printed(p, x + y),
    decreases y.len(),
{
    if y.len() == 0 {
        assert(x + y =~= x);
    } else {
        printing_joins(p, x, y.drop_last());
        assert((x + y).drop_last() =~= x + y.drop_last());
        assert((x + y).last() == y.last());
    }
}

/// It does not matter in which pieces the text of a terminal arrives.
pub proof fn terminal_text_in_pieces(buffer: Seq<char>, x: Seq<char>, y: Seq<char>)
    ensures
        terminal_text(terminal_text(buffer, x), y) == terminal_text(buffer, x + y),
{
    shown_is_sound(buffer);
    let p = printed(showing(buffer), x);
    printing_is_sound(showing(buffer), x);
    sound_is_shown(p);
    printing_joins(showing(buffer), x, y);
}

/// Everything in front of the last line is kept as it is.
pub proof fn terminal_text_keeps_finished_lines(buffer: Seq<char>, new_text: Seq<char>)
    ensures
        text::starts_with(terminal_text(buffer, new_text), buffer.take(last_line_start(buffer))),
{
    shown_is_sound(buffer);
    printing_is_sound(showing(buffer), new_text);
    last_line_bounds(buffer);
    let kept = buffer.take(last_line_start(buffer));
    let p = printed(showing(buffer), new_text);
    assert(terminal_text(buffer, new_text).subrange(0, kept.len() as int) =~= p.done.take(
        kept.len() as int,
    ));
}

/// No text changes nothing.
pub proof fn no_terminal_text(buffer: Seq<char>)
    ensures
        terminal_text(buffer, Seq::empty()) == buffer,
{
    shown_is_sound(buffer);
}

/// Where the last line starts.
pub fn last_line_of(b: &[char]) -> (at: usize)
    ensures
        at == last_line_start(b@),
        at <= b@.len(),
{
    let mut at: usize = b.len();
    assert(b@.take(at as int) =~= b@);
    while at > 0 && b[at - 1] != '\n'
        invariant
            at <= b@.len(),
            last_line_start(b@) == last_line_start(b@.take(at as int)),
        decreases at,
    {
        assert(b@.take(at as int).drop_last() =~= b@.take(at - 1));
        at -= 1;
    }
    at
}

/// Adds output to what the terminal of the window shows.
///
/// `\r` drops the current line, which is then written anew, and `\n` finishes it and
/// starts another. As a line is dropped at once, output may arrive in any pieces. Only
/// the last line can be affected, so what stands in front of it is kept as it is.
pub fn apply_terminal_text(buffer: &str, new_text: &str) -> (r: String)
    ensures
        r@ == terminal_text(buffer@, new_text@),
{
    let b = text::chars_of(buffer);
    let t = text::chars_of(new_text);
    let at: usize = last_line_of(b.as_slice());
    let mut done: Vec<char> = text::cut(b.as_slice(), 0, at);
    let mut line: Vec<char> = text::cut(b.as_slice(), at, b.len());
    let ghost start = showing(b@);
    assert(done@ =~= start.done);
    assert(line@ =~= start.line);
    let mut i: usize = 0;
    assert(t@.take(0) =~= Seq::<char>::empty());
    while i < t.len()
        invariant
            i <= t@.len(),
            (Printed { done: done@, line: line@ }) == printed(start, t@.take(i as int)),
        decreases t@.len() - i,
    {
        let c = t[i];
        assert(t@.take(i + 1).drop_last() =~= t@.take(i as int));
        if c == '\n' {
            line.push('\n');
            text::extend(&mut done, line.as_slice());
            line = Vec::new();
        } else if c == '\r' {
            line = Vec::new();
        } else {
            line.push(c);
        }
        i += 1;
    }
    assert(t@.take(t@.len() as int) =~= t@);
    text::extend(&mut done, line.as_slice());
    text::text_of(done.as_slice())
}

/// Text without escapes is visible as it is.
proof fn plain_text_is_visible(s: Seq<char>, b: Seq<char>, i: int)
    requires
        0 <= i <= s.len(),
        forall|k: int| 0 <= k < s.len() ==> #[trigger] s[k] != '\x1b',
    ensures
        visible(s + b, i) == s.skip(i) + visible(s + b, s.len() as int),
    decreases s.len() - i,
{
    let t = s + b;
    if i < s.len() {
        assert(t[i] == s[i]);
        plain_text_is_visible(s, b, i + 1);
        assert(seq![s[i]] + (s.skip(i + 1) + visible(t, s.len() as int)) =~= s.skip(i) + visible(
            t,
            s.len() as int,
        ));
    } else {
        assert(s.skip(i) + visible(t, i) =~= visible(t, i));
    }
}

/// Runs go on behind a text as they do by themselves.
proof fn run_end_shifted(a: Seq<char>, b: Seq<char>, i: int, lo: u32, hi: u32)
    requires
        0 <= i,
    ensures
        run_end(a + b, a.len() + i, lo, hi) == a.len() + run_end(b, i, lo, hi),
    decreases b.len() - i,
{
    if i < b.len() {
        assert((a + b)[a.len() + i] == b[i]);
        if lo <= b[i] as u32 <= hi {
            run_end_shifted(a, b, i + 1, lo, hi);
        }
    }
}

/// Commands go on behind a text as they do by themselves.
proof fn command_end_shifted(a: Seq<char>, b: Seq<char>, i: int)
    requires
        0 <= i,
    ensures
        command_end(a + b, a.len() + i) == a.len() + command_end(b, i),
    decreases b.len() - i,
{
    if i < b.len() {
        assert((a + b)[a.len() + i] == b[i]);
        if i + 1 < b.len() {
            assert((a + b)[a.len() + i + 1] == b[i + 1]);
        }
        command_end_shifted(a, b, i + 1);
    }
}

/// Escapes go on behind a text as they do by themselves.
pub proof fn escape_end_shifted(a: Seq<char>, b: Seq<char>, i: int)
    requires
        0 <= i < b.len(),
    ensures
        escape_end(a + b, a.len() + i) == a.len() + escape_end(b, i),
{
    let s = a + b;
    if i + 1 < b.len() {
        assert(s[a.len() + i + 1] == b[i + 1]);
        run_end_shifted(a, b, i + 2, 0x30, 0x3f);
        run_end_bounds(b, i + 2, 0x30, 0x3f);
        let m = run_end(b, i + 2, 0x30, 0x3f);
        run_end_shifted(a, b, m, 0x20, 0x2f);
        let e = run_end(b, m, 0x20, 0x2f);
        run_end_bounds(b, m, 0x20, 0x2f);
        if e < b.len() {
            assert(s[a.len() + e] == b[e]);
        }
        command_end_shifted(a, b, i + 2);
    }
}

/// What is visible of the rest of a text is what is visible of the rest.
pub proof fn visible_shifted(a: Seq<char>, b: Seq<char>, i: int)
    requires
        0 <= i,
    ensures
        visible(a + b, a.len() + i) == visible(b, i),
    decreases b.len() - i,
{
    if i < b.len() {
        assert((a + b)[a.len() + i] == b[i]);
        if b[i] == '\x1b' {
            escape_end_bounds(b, i);
            escape_end_bounds(a + b, a.len() + i);
            escape_end_shifted(a, b, i);
            visible_shifted(a, b, escape_end(b, i));
        } else {
            visible_shifted(a, b, i + 1);
        }
    }
}

/// An escape that ends within a text is not visible, and neither is anything of it: what
/// stands in front of it and behind it is.
proof fn escape_vanishes(a: Seq<char>, escape: Seq<char>, b: Seq<char>)
    requires
        forall|k: int| 0 <= k < a.len() ==> #[trigger] a[k] != '\x1b',
        escape.len() > 0,
        escape[0] == '\x1b',
        escape_end(escape + b, 0) == escape.len(),
    ensures
        visible(a + escape + b, 0) == a + visible(b, 0),
{
    let s = a + escape + b;
    let rest = escape + b;
    assert(s =~= a + rest);
    plain_text_is_visible(a, rest, 0);
    assert(a.skip(0) =~= a);
    visible_shifted(a, rest, 0);
    assert(rest[0] == '\x1b');
    escape_end_bounds(rest, 0);
    visible_shifted(escape, b, 0);
}

/// A run of characters of a range ends in front of the first other one.
proof fn run_is_passed(s: Seq<char>, i: int, n: int, lo: u32, hi: u32)
    requires
        0 <= i <= n <= s.len(),
        forall|k: int| i <= k < n ==> lo <= (#[trigger] s[k]) as u32 <= hi,
        n < s.len() ==> !(lo <= s[n] as u32 <= hi),
    ensures
        run_end(s, i, lo, hi) == n,
    decreases n - i,
{
    if i < n {
        assert(lo <= s[i] as u32 <= hi);
        run_is_passed(s, i + 1, n, lo, hi);
    }
}

/// A control sequence, `ESC[` with parameters, intermediate characters and a final one, is
/// not visible. Its parameters lie between `0` and `?`, the intermediate characters between
/// the blank and `/`, the final one between `@` and `~`.
pub proof fn control_sequences_vanish(
    a: Seq<char>,
    params: Seq<char>,
    between: Seq<char>,
    last: char,
    b: Seq<char>,
)
    requires
        forall|k: int| 0 <= k < a.len() ==> #[trigger] a[k] != '\x1b',
        forall|k: int| 0 <= k < params.len() ==> 0x30 <= (#[trigger] params[k]) as u32 <= 0x3f,
        forall|k: int| 0 <= k < between.len() ==> 0x20 <= (#[trigger] between[k]) as u32 <= 0x2f,
        0x40 <= last as u32 <= 0x7e,
    ensures
        visible(a + (seq!['\x1b', '['] + params + between).push(last) + b, 0) == a + visible(b, 0),
{
    let escape = (seq!['\x1b', '['] + params + between).push(last);
    let rest = escape + b;
    let m = 2 + params.len() as int;
    let e = m + between.len();
    assert(rest[1] == '[');
    assert forall|k: int| 2 <= k < m implies 0x30 <= (#[trigger] rest[k]) as u32 <= 0x3f by {
        assert(rest[k] == params[k - 2]);
    }
    assert forall|k: int| m <= k < e implies 0x20 <= (#[trigger] rest[k]) as u32 <= 0x2f by {
        assert(rest[k] == between[k - m]);
    }
    assert(rest[e] == last);
    run_is_passed(rest, 2, m, 0x30, 0x3f);
    run_is_passed(rest, m, e, 0x20, 0x2f);
    escape_vanishes(a, escape, b);
}

/// A title, `ESC]` with a text up to the bell, is not visible.
pub proof fn titles_vanish(a: Seq<char>, title: Seq<char>, b: Seq<char>)
    requires
        forall|k: int| 0 <= k < a.len() ==> #[trigger] a[k] != '\x1b',
        forall|k: int|
            0 <= k < title.len() ==> #[trigger] title[k] != '\x1b' && title[k] != '\x07',
    ensures
        visible(a + (seq!['\x1b', ']'] + title).push('\x07') + b, 0) == a + visible(b, 0),
{
    let escape = (seq!['\x1b', ']'] + title).push('\x07');
    let rest = escape + b;
    assert(rest[1] == ']');
    command_is_passed(rest, 2, (2 + title.len()) as int, title);
    escape_vanishes(a, escape, b);
}

/// A command goes on to the bell.
proof fn command_is_passed(s: Seq<char>, i: int, n: int, title: Seq<char>)
    requires
        2 <= i <= n < s.len(),
        n == 2 + title.len(),
        s[n] == '\x07',
        forall|k: int| 2 <= k < n ==> #[trigger] s[k] == title[k - 2],
        forall|k: int|
            0 <= k < title.len() ==> #[trigger] title[k] != '\x1b' && title[k] != '\x07',
    ensures
        command_end(s, i) == n + 1,
    decreases n - i,
{
    if i < n {
        assert(s[i] == title[i - 2]);
        command_is_passed(s, i + 1, n, title);
    }
}

/// The choice of a character set takes one character more, and any other escape is one
/// character long.
pub proof fn short_escapes_vanish(a: Seq<char>, c: char, set: char, b: Seq<char>)
    requires
        forall|k: int| 0 <= k < a.len() ==> #[trigger] a[k] != '\x1b',
        c != '[' && c != ']',
    ensures
        c == '(' || c == ')' || c == '*' || c == '+' ==> visible(a + seq!['\x1b', c, set] + b, 0)
            == a + visible(b, 0),
        !(c == '(' || c == ')' || c == '*' || c == '+') ==> visible(a + seq!['\x1b', c] + b, 0) == a
            + visible(b, 0),
{
    if c == '(' || c == ')' || c == '*' || c == '+' {
        let escape = seq!['\x1b', c, set];
        assert((escape + b)[1] == c);
        escape_vanishes(a, escape, b);
    } else {
        let escape = seq!['\x1b', c];
        assert((escape + b)[1] == c);
        escape_vanishes(a, escape, b);
    }
}

/// Text of one line without escapes is displayed as it is, and one behind a carriage return
/// takes the place of what the line held.
pub proof fn lines_are_displayed(x: Seq<char>, y: Seq<char>)
    requires
        forall|k: int|
            0 <= k < x.len() ==> #[trigger] x[k] != '\x1b' && x[k] != '\n' && x[k] != '\r',
        forall|k: int|
            0 <= k < y.len() ==> #[trigger] y[k] != '\x1b' && y[k] != '\n' && y[k] != '\r',
    ensures
        displayed(x) == x,
        displayed(x.push('\r') + y) == y,
{
    all_visible(x);
    unreturned(Seq::empty(), x);
    line_is_displayed(x, x);
    let both = x.push('\r') + y;
    all_visible(both);
    unreturned(x.push('\r'), y);
    line_is_displayed(both, y);
    assert(Seq::<char>::empty() + x =~= x);
}

/// Text without escapes is all visible.
pub proof fn all_visible(s: Seq<char>)
    requires
        forall|k: int| 0 <= k < s.len() ==> #[trigger] s[k] != '\x1b',
    ensures
        visible(s, 0) == s,
{
    plain_text_is_visible(s, Seq::empty(), 0);
    assert(s + Seq::<char>::empty() =~= s);
    assert(visible(s, s.len() as int) =~= Seq::empty());
    assert(s.skip(0) + Seq::<char>::empty() =~= s);
}

/// Of a line what stands behind the last carriage return is left.
proof fn unreturned(a: Seq<char>, y: Seq<char>)
    requires
        a.len() == 0 || a.last() == '\r',
        forall|k: int| 0 <= k < y.len() ==> #[trigger] y[k] != '\r',
    ensures
        after_return(a + y) == y,
    decreases y.len(),
{
    let s = a + y;
    if y.len() == 0 {
        assert(s =~= a);
        assert(after_return(s) =~= y);
    } else {
        assert(s.last() == y.last());
        assert(y.last() == y[y.len() - 1]);
        assert(s.drop_last() =~= a + y.drop_last());
        unreturned(a, y.drop_last());
        assert(y.drop_last().push(y.last()) =~= y);
    }
}

/// One line is displayed as what is left of it.
proof fn line_is_displayed(s: Seq<char>, shown: Seq<char>)
    requires
        visible(s, 0) == s,
        forall|k: int| 0 <= k < s.len() ==> #[trigger] s[k] != '\n',
        after_return(s) == shown,
    ensures
        displayed(s) == shown,
{
    text::unsplit(s, Sep::At('\n'));
    assert(screen(s) =~= seq![shown]);
    if shown.len() == 0 {
        assert(without_open_line(screen(s)) =~= Seq::empty());
        assert(displayed(s) =~= shown);
    } else {
        assert(without_open_line(screen(s)) =~= seq![shown]);
    }
}

/// The characters that progress bars are drawn with: neither a letter nor a digit of ASCII
/// is among them, the usual ones are, and a bar is counted by them.
pub proof fn bars_are_drawn(t: Seq<char>)
    ensures
        forall|c: char|
            (#[trigger] is_bar(c)) && (c as u32) < 0x80 ==> c == '#' || c == '.' || c == '-' || c
                == '=' || c == '>' || c == ' ',
        is_bar('#') && is_bar('.') && is_bar('-') && is_bar('=') && is_bar('>') && is_bar(' ')
            && is_bar('█') && is_bar('░') && is_bar('▒') && is_bar('▓') && is_bar('━') && is_bar('─')
            && is_bar('╸') && is_bar('╺') && is_bar('▏') && is_bar('▉'),
        bar_count(t) == t.filter(|c: char| is_bar(c)).len(),
    decreases t.len(),
{
    reveal(Seq::filter);
    if t.len() > 0 {
        bars_are_drawn(t.drop_last());
    }
}

/// A line is a progress bar exactly where nothing of it is left without spaces around it,
/// or at least three characters are, more than half of them those of bars.
pub proof fn bars_are_known(a: Seq<char>, t: Seq<char>, b: Seq<char>)
    requires
        forall|i: int| 0 <= i < a.len() ==> text::is_space(#[trigger] a[i]),
        forall|i: int| 0 <= i < b.len() ==> text::is_space(#[trigger] b[i]),
        t.len() > 0 ==> !text::is_space(t.first()) && !text::is_space(t.last()),
    ensures
        is_progress_bar(a + t + b) <==> t.len() == 0 || (t.len() >= 3 && t.filter(
            |c: char| is_bar(c),
        ).len() > t.len() / 2),
{
    text::trimming_finds_the_middle(a, t, b);
    bars_are_drawn(t);
}

/// Output without carriage returns is added to what a terminal shows, and behind one it
/// takes the place of the last line.
pub proof fn output_is_added(done: Seq<char>, line: Seq<char>, t: Seq<char>)
    requires
        done.len() > 0 ==> done.last() == '\n',
        !line.contains('\n'),
        !t.contains('\r'),
    ensures
        terminal_text(done + line, t) == done + line + t,
        terminal_text(done + line, seq!['\r'] + t) == done + t,
{
    let p = Printed { done, line };
    sound_is_shown(p);
    unreturned_is_added(p, t);
    let empty = Printed { done, line: Seq::empty() };
    assert(!empty.line.contains('\n'));
    unreturned_is_added(empty, t);
    printing_joins(p, seq!['\r'], t);
    assert(seq!['\r'].drop_last() =~= Seq::empty());
    assert(printed(p, Seq::empty()) == p);
    assert(printed(p, seq!['\r']) == print(p, '\r'));
    assert(done + Seq::<char>::empty() + t =~= done + t);
}

/// Output without carriage returns stands behind what was shown.
proof fn unreturned_is_added(p: Printed, t: Seq<char>)
    requires
        !t.contains('\r'),
    ensures
        printed(p, t).done + printed(p, t).line == p.done + p.line + t,
    decreases t.len(),
{
    if t.len() == 0 {
        assert(p.done + p.line + t =~= p.done + p.line);
    } else {
        let head = t.drop_last();
        assert(!head.contains('\r')) by {
            if head.contains('\r') {
                let i = choose|i: int| 0 <= i < head.len() && head[i] == '\r';
                assert(t[i] == '\r');
            }
        }
        unreturned_is_added(p, head);
        let q = printed(p, head);
        assert(t.last() != '\r') by {
            assert(t[t.len() - 1] == t.last());
        }
        assert(printed(p, t).done + printed(p, t).line =~= (q.done + q.line).push(t.last()));
        assert((p.done + p.line + head).push(t.last()) =~= p.done + p.line + t);
    }
}

/// Joined texts hold no escape where none of them does.
proof fn joined_without_escapes(v: Seq<Seq<char>>)
    requires
        forall|i: int| 0 <= i < v.len() ==> !(#[trigger] v[i]).contains('\x1b'),
    ensures
        forall|k: int|
            0 <= k < text::join(v, seq!['\n']).len() ==> #[trigger] text::join(v, seq!['\n'])[k]
                != '\x1b',
    decreases v.len(),
{
    let s = text::join(v, seq!['\n']);
    if v.len() == 1 {
        assert forall|k: int| 0 <= k < s.len() implies #[trigger] s[k] != '\x1b' by {
            assert(v[0].contains(s[k]));
        }
    } else if v.len() > 1 {
        let head = v.drop_last();
        let before = text::join(head, seq!['\n']);
        assert forall|i: int| 0 <= i < head.len() implies !(#[trigger] head[i]).contains('\x1b') by {
            assert(head[i] == v[i]);
        }
        joined_without_escapes(head);
        assert forall|k: int| 0 <= k < s.len() implies #[trigger] s[k] != '\x1b' by {
            if k < before.len() {
                assert(s[k] == before[k]);
            } else if k > before.len() {
                assert(s[k] == v.last()[k - before.len() - 1]);
                assert(v.last().contains(s[k]));
            }
        }
    }
}

/// Output of several lines is displayed line by line, each as what stands behind its last
/// carriage return, and the line feed at the end is left out.
pub proof fn all_lines_are_displayed(w: Seq<Seq<char>>, x: Seq<Seq<char>>, v: Seq<Seq<char>>)
    requires
        0 < w.len() == x.len() == v.len(),
        forall|i: int|
            0 <= i < w.len() ==> !(#[trigger] w[i]).contains('\x1b') && !w[i].contains('\n'),
        forall|i: int, k: int|
            0 <= i < v.len() && 0 <= k < v[i].len() ==> #[trigger] v[i][k] != '\r',
        forall|i: int|
            0 <= i < w.len() ==> (#[trigger] w[i] == v[i] || w[i] == x[i].push('\r') + v[i]),
    ensures
        displayed(text::join(w, seq!['\n']).push('\n')) == text::join(v, seq!['\n']),
        v.last().len() > 0 ==> displayed(text::join(w, seq!['\n'])) == text::join(v, seq!['\n']),
{
    let s = text::join(w, seq!['\n']);
    let t = s.push('\n');
    let none = Seq::<char>::empty();
    joined_without_escapes(w);
    all_visible(s);
    all_visible(t);
    text::split_undoes_join(w, '\n');
    text::split_appended(s, '\n', none);
    assert(t + none =~= t);
    assert forall|i: int| 0 <= i < w.len() implies after_return(#[trigger] w[i]) == v[i] by {
        assert forall|k: int| 0 <= k < v[i].len() implies #[trigger] v[i][k] != '\r' by {}
        if w[i] == v[i] {
            unreturned(none, v[i]);
            assert(none + v[i] =~= v[i]);
        } else {
            unreturned(x[i].push('\r'), v[i]);
        }
    }
    assert(screen(s) =~= v);
    assert(after_return(none) == none);
    assert(screen(t) =~= v.push(none));
    assert(v.push(none).drop_last() =~= v);
}

/// A title may also end with `ESC\`, and an escape that does not end takes all that
/// follows.
pub proof fn open_escapes_vanish(a: Seq<char>, title: Seq<char>, params: Seq<char>, b: Seq<char>)
    requires
        forall|k: int| 0 <= k < a.len() ==> #[trigger] a[k] != '\x1b',
        forall|k: int|
            0 <= k < title.len() ==> #[trigger] title[k] != '\x1b' && title[k] != '\x07',
        forall|k: int| 0 <= k < params.len() ==> 0x30 <= (#[trigger] params[k]) as u32 <= 0x3f,
    ensures
        visible(a + (seq!['\x1b', ']'] + title + seq!['\x1b', '\\']) + b, 0) == a + visible(b, 0),
        visible(a + (seq!['\x1b', '['] + params) + Seq::empty(), 0) == a,
        visible(a + (seq!['\x1b', ']'] + title) + Seq::empty(), 0) == a,
        visible(a + seq!['\x1b'] + Seq::empty(), 0) == a,
{
    let none = Seq::<char>::empty();
    let escape = seq!['\x1b', ']'] + title + seq!['\x1b', '\\'];
    let rest = escape + b;
    assert(rest[1] == ']');
    title_is_passed(rest, 2, (2 + title.len()) as int, title);
    escape_vanishes(a, escape, b);
    assert(visible(none, 0) =~= none);
    assert(a + none =~= a);
    let control = seq!['\x1b', '['] + params;
    let m = control.len() as int;
    assert(control + none =~= control);
    assert forall|k: int| 2 <= k < m implies 0x30 <= (#[trigger] control[k]) as u32 <= 0x3f by {
        assert(control[k] == params[k - 2]);
    }
    assert(control[1] == '[');
    run_is_passed(control, 2, m, 0x30, 0x3f);
    run_is_passed(control, m, m, 0x20, 0x2f);
    escape_vanishes(a, control, none);
    let open = seq!['\x1b', ']'] + title;
    assert(open + none =~= open);
    assert(open[1] == ']');
    open_title_is_passed(open, 2, title);
    escape_vanishes(a, open, none);
    assert(seq!['\x1b'] + none =~= seq!['\x1b']);
    escape_vanishes(a, seq!['\x1b'], none);
}

/// A command goes on to the string terminator.
proof fn title_is_passed(s: Seq<char>, i: int, n: int, title: Seq<char>)
    requires
        2 <= i <= n,
        n + 1 < s.len(),
        n == 2 + title.len(),
        s[n] == '\x1b',
        s[n + 1] == '\\',
        forall|k: int| 2 <= k < n ==> #[trigger] s[k] == title[k - 2],
        forall|k: int|
            0 <= k < title.len() ==> #[trigger] title[k] != '\x1b' && title[k] != '\x07',
    ensures
        command_end(s, i) == n + 2,
    decreases n - i,
{
    if i < n {
        assert(s[i] == title[i - 2]);
        title_is_passed(s, i + 1, n, title);
    }
}

/// A command that is not ended goes on to the end.
proof fn open_title_is_passed(s: Seq<char>, i: int, title: Seq<char>)
    requires
        2 <= i <= s.len(),
        s.len() == 2 + title.len(),
        forall|k: int| 2 <= k < s.len() ==> #[trigger] s[k] == title[k - 2],
        forall|k: int|
            0 <= k < title.len() ==> #[trigger] title[k] != '\x1b' && title[k] != '\x07',
    ensures
        command_end(s, i) == s.len(),
    decreases s.len() - i,
{
    if i < s.len() {
        assert(s[i] == title[i - 2]);
        open_title_is_passed(s, i + 1, title);
    }
}

} // verus!
