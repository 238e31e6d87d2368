//! Running a package operation: the command that carries it out, and what its
//! output says of its progress.
use crate::bytes;
use crate::rounding;
use crate::terminal;
use crate::text;
use crate::text::Sep;
use crate::ui;
use crate::ui::{UiMessage, UiMessageView};
use vstd::prelude::*;
use vstd::string::*;
use vstd::utf8::*;

verus! {

broadcast use vstd::seq_lib::group_seq_properties;

/// Questions that are always answered with yes.
pub open spec fn asks_to_proceed(t: Seq<char>) -> bool {
    ||| text::has(t, "Proceed with installation? [Y/n]"@)
    ||| text::has(t, "Proceed with download? [Y/n]"@)
    ||| text::has(t, ":: Proceed with installation? [Y/n]"@)
    ||| text::has(t, ":: Proceed with download? [Y/n]"@)
    ||| text::has(t, "Do you want to remove these packages? [y/N]"@)
    ||| text::has(t, ":: Do you want to remove these packages? [y/N]"@)
}

/// Whether the text holds a question that is always answered with yes.
fn auto_confirms(t: &[char]) -> (r: bool)
    ensures
        r == asks_to_proceed(t@),
{
    text::mentions(t, "Proceed with installation? [Y/n]") || text::mentions(
        t,
        "Proceed with download? [Y/n]",
    ) || text::mentions(t, ":: Proceed with installation? [Y/n]") || text::mentions(
        t,
        ":: Proceed with download? [Y/n]",
    ) || text::mentions(t, "Do you want to remove these packages? [y/N]") || text::mentions(
        t,
        ":: Do you want to remove these packages? [y/N]",
    )
}

/// Questions that the user has to answer.
pub open spec fn asks_user(t: Seq<char>) -> bool {
    ||| text::has(t, ":: Replace"@)
    ||| text::has(t, ":: Import"@)
    ||| text::has(t, "Enter a number"@)
    ||| text::has(t, "Enter a selection"@)
    ||| text::has(t, "Terminate batch job"@)
    ||| text::has(t, "[y/N]"@)
}

/// Whether the text holds a question that the user has to answer.
fn prompts_user(t: &[char]) -> (r: bool)
    ensures
        r == asks_user(t@),
{
    text::mentions(t, ":: Replace") || text::mentions(t, ":: Import") || text::mentions(
        t,
        "Enter a number",
    ) || text::mentions(t, "Enter a selection") || text::mentions(t, "Terminate batch job")
        || text::mentions(t, "[y/N]")
}

/// What says, in any case, that the operation cannot go on by itself.
pub open spec fn reports_conflict(t: Seq<char>) -> bool {
    let l = text::lowercase(t);
    ||| text::has(l, "conflicting files"@)
    ||| text::has(l, "are in conflict"@)
    ||| text::has(l, "exists in filesystem"@)
    ||| text::has(l, "breaks dependency"@)
    ||| text::has(l, "could not satisfy dependencies"@)
    ||| text::has(l, "failed to commit transaction"@)
}

/// Whether the text says that the operation cannot go on by itself.
fn has_conflict(t: &[char]) -> (r: bool)
    ensures
        r == reports_conflict(t@),
{
    let lower = text::lower(t);
    let l = lower.as_slice();
    text::mentions(l, "conflicting files") || text::mentions(l, "are in conflict")
        || text::mentions(l, "exists in filesystem") || text::mentions(l, "breaks dependency")
        || text::mentions(l, "could not satisfy dependencies") || text::mentions(
        l,
        "failed to commit transaction",
    )
}

/// What stands between the first opening bracket and the first closing bracket
/// behind it.
pub open spec fn bracketed(line: Seq<char>) -> Option<Seq<char>> {
    match text::find_from(line, seq!['('], 0) {
        Some(a) => match text::find_from(line, seq![')'], a) {
            Some(b) => Some(line.subrange(a + 1, b)),
            None => None,
        },
        None => None,
    }
}

/// The two numbers of a bracketed count such as `(3/12)`, where the second is
/// positive.
pub open spec fn counted(line: Seq<char>) -> Option<(int, int)> {
    match bracketed(line) {
        Some(inner) => {
            let parts = text::split(inner, Sep::At('/'));
            if parts.len() == 2 {
                match (
                    text::parse_signed(text::trim(parts[0])),
                    text::parse_signed(text::trim(parts[1])),
                ) {
                    (Some(done), Some(total)) => if total > 0 {
                        Some((done, total))
                    } else {
                        None
                    },
                    _ => None,
                }
            } else {
                None
            }
        },
        None => None,
    }
}

/// The closest number of 32 bits.
pub open spec fn saturated(n: int) -> i32 {
    if n > i32::MAX {
        i32::MAX
    } else if n < i32::MIN {
        i32::MIN
    } else {
        n as i32
    }
}

/// The size of a number.
pub open spec fn magnitude(n: int) -> nat {
    if n < 0 {
        (-n) as nat
    } else {
        n as nat
    }
}

/// The share `done / total` of `span`, computed with doubles and cut to its whole
/// part.
pub open spec fn share(done: int, total: int, span: int) -> int {
    let size = rounding::double_scaled(magnitude(done), magnitude(total), magnitude(span));
    if (done < 0) == (span < 0) {
        size as int
    } else {
        -(size as int)
    }
}

/// The percentage for a line that counts packages: as far into the range from
/// `range_start` to `range_end` as the count has come. Far outside the range the
/// sum wraps.
pub open spec fn progress_fraction(line: Seq<char>, range_start: i32, range_end: i32) -> Option<
    i32,
> {
    match counted(line) {
        Some((done, total)) => Some(
            range_start.wrapping_add(saturated(share(done, total, range_end - range_start))),
        ),
        None => None,
    }
}

/// The two numbers of a bracketed count.
fn count_of(line: &[char]) -> (r: Option<(i32, i32)>)
    ensures
        match r {
            Some((done, total)) => counted(line@) == Some((done as int, total as int)) && total > 0,
            None => counted(line@) is None,
        },
{
    let open: Vec<char> = vec!['('];
    let close: Vec<char> = vec![')'];
    let slash = Sep::At('/');
    assert(open@ =~= seq!['(']);
    assert(close@ =~= seq![')']);
    match text::find(line, open.as_slice(), 0) {
        None => None,
        Some(a) => {
            proof {
                text::find_from_is_first(line@, open@, 0);
                assert(line@.subrange(a as int, a + 1)[0] == '(');
            }
            match text::find(line, close.as_slice(), a) {
                None => None,
                Some(b) => {
                    proof {
                        text::find_from_is_first(line@, close@, a as int);
                        assert(line@.subrange(b as int, b + 1)[0] == ')');
                    }
                    let inner = text::cut(line, a + 1, b);
                    let parts = text::pieces(inner.as_slice(), slash);
                    let ghost all = text::texts(parts@);
                    if parts.len() != 2 {
                        return None;
                    }
                    assert(all[0] == parts@[0]@ && all[1] == parts@[1]@);
                    let first = text::trimmed(parts[0].as_slice());
                    let second = text::trimmed(parts[1].as_slice());
                    match (
                        text::signed_number(first.as_slice()),
                        text::signed_number(second.as_slice()),
                    ) {
                        (Some(done), Some(total)) => if total > 0 {
                            Some((done, total))
                        } else {
                            None
                        },
                        _ => None,
                    }
                },
            }
        },
    }
}

/// The percentage for a line that counts packages.
pub fn parse_progress_fraction(line: &[char], range_start: i32, range_end: i32) -> (r: Option<i32>)
    requires
        i32::MIN <= range_end - range_start <= i32::MAX,
    ensures
        r == progress_fraction(line@, range_start, range_end),
{
    match count_of(line) {
        None => None,
        Some((done, total)) => {
            let span: i64 = range_end as i64 - range_start as i64;
            let size_done: u128 = if done < 0 {
                (0 - done as i64) as u128
            } else {
                done as u128
            };
            let size_span: u64 = if span < 0 {
                (0 - span) as u64
            } else {
                span as u64
            };
            let size: u128 = rounding::scaled_part(size_done, total as u128, size_span);
            let part: i32 = if (done < 0) == (span < 0) {
                if size > 0x7fff_ffff {
                    i32::MAX
                } else {
                    size as i32
                }
            } else if size > 0x7fff_ffff {
                i32::MIN
            } else {
                0 - size as i32
            };
            assert(part == saturated(share(done as int, total as int, span as int)));
            Some(range_start.wrapping_add(part))
        },
    }
}

/// How far a line of output says that the operation is, where `current` is how far
/// it was.
pub open spec fn stage_percent(line: Seq<char>, current: i32) -> i32 {
    let l = text::lowercase(line);
    if text::has(l, "resolving dependencies"@) {
        10
    } else if text::has(l, "looking for conflicting"@) {
        15
    } else if text::has(l, "downloading"@) {
        match progress_fraction(line, 20, 50) {
            Some(n) => n,
            None => 35,
        }
    } else if text::has(l, "checking keyring"@) || text::has(l, "checking integrity"@) {
        52
    } else if text::has(l, "checking package integrity"@) {
        55
    } else if text::has(l, "loading package files"@) {
        58
    } else if text::has(l, "installing"@) || text::has(l, "upgrading"@) || text::has(
        l,
        "removing"@,
    ) || text::has(l, "reinstalling"@) {
        match progress_fraction(line, 60, 85) {
            Some(n) => n,
            None => 72,
        }
    } else if text::has(l, "running post-transaction hooks"@) {
        88
    } else if text::has(l, "arming conditionpathexists"@) || text::has(l, "updating linux module"@)
        || text::has(l, "dkms"@) {
        90
    } else if text::has(l, "updating linux initcpios"@) || text::has(l, "mkinitcpio"@) {
        92
    } else if text::has(l, "updating grub"@) || text::has(l, "grub-mkconfig"@) {
        95
    } else if text::has(l, "updating the info"@) || text::has(l, "updating the desktop"@)
        || text::has(l, "updating mime"@) {
        97
    } else {
        current
    }
}

/// How far a line of output says that the operation is.
fn percent_of(line: &[char], current: i32) -> (r: i32)
    ensures
        r == stage_percent(line@, current),
{
    let lower = text::lower(line);
    let l = lower.as_slice();
    if text::mentions(l, "resolving dependencies") {
        10
    } else if text::mentions(l, "looking for conflicting") {
        15
    } else if text::mentions(l, "downloading") {
        match parse_progress_fraction(line, 20, 50) {
            Some(n) => n,
            None => 35,
        }
    } else if text::mentions(l, "checking keyring") || text::mentions(l, "checking integrity") {
        52
    } else if text::mentions(l, "checking package integrity") {
        55
    } else if text::mentions(l, "loading package files") {
        58
    } else if text::mentions(l, "installing") || text::mentions(l, "upgrading") || text::mentions(
        l,
        "removing",
    ) || text::mentions(l, "reinstalling") {
        match parse_progress_fraction(line, 60, 85) {
            Some(n) => n,
            None => 72,
        }
    } else if text::mentions(l, "running post-transaction hooks") {
        88
    } else if text::mentions(l, "arming conditionpathexists") || text::mentions(
        l,
        "updating linux module",
    ) || text::mentions(l, "dkms") {
        90
    } else if text::mentions(l, "updating linux initcpios") || text::mentions(l, "mkinitcpio") {
        92
    } else if text::mentions(l, "updating grub") || text::mentions(l, "grub-mkconfig") {
        95
    } else if text::mentions(l, "updating the info") || text::mentions(l, "updating the desktop")
        || text::mentions(l, "updating mime") {
        97
    } else {
        current
    }
}

/// How far the operation is after some lines of output, and what the window is
/// told on the way: every advance, and from 88 percent on every line that is not
/// blank and falls behind nothing.
pub open spec fn staged(ls: Seq<Seq<char>>, percent: i32) -> (i32, Seq<UiMessageView>)
    decreases ls.len(),
{
    if ls.len() == 0 {
        (percent, Seq::empty())
    } else {
        let (p, told) = staged(ls.drop_last(), percent);
        let now = stage_percent(ls.last(), p);
        let stage = text::trim(ls.last());
        if now > p || (now == p && p >= 88 && stage.len() > 0) {
            (now, told.push(UiMessageView::OperationProgress(now, stage)))
        } else {
            (p, told)
        }
    }
}

/// The lines that the log shows: trimmed, without progress bars and blank lines.
pub open spec fn log_of(ls: Seq<Seq<char>>) -> Seq<char>
    decreases ls.len(),
{
    if ls.len() == 0 {
        Seq::empty()
    } else {
        let line = text::trim(ls.last());
        if terminal::is_progress_bar(line) {
            log_of(ls.drop_last())
        } else {
            log_of(ls.drop_last()) + line.push('\n')
        }
    }
}

/// A log cut to its last 80 lines.
pub open spec fn recent(log: Seq<char>) -> Seq<char> {
    let ls = text::lines(log);
    if ls.len() > 80 {
        text::join(ls.skip(ls.len() - 80), seq!['\n']).push('\n')
    } else {
        log
    }
}

/// The last line that is not blank.
pub open spec fn last_filled(ls: Seq<Seq<char>>) -> Option<Seq<char>>
    decreases ls.len(),
{
    if ls.len() == 0 {
        None
    } else if text::trim(ls.last()).len() > 0 {
        Some(ls.last())
    } else {
        last_filled(ls.drop_last())
    }
}

/// The question that the user is shown.
pub open spec fn question(t: Seq<char>) -> Seq<char> {
    match last_filled(text::lines(t)) {
        Some(line) => text::trim(line),
        None => text::trim(t),
    }
}

/// A log cut to its last 80 lines.
fn cut_to_recent(log: &[char]) -> (r: Vec<char>)
    ensures
        r@ == recent(log@),
{
    let ls = text::lines_of(log);
    let n: usize = ls.len();
    if n > 80 {
        let feed: Vec<char> = vec!['\n'];
        let mut r = text::joined(&ls, n - 80, n, feed.as_slice());
        assert(text::texts(ls@).subrange(n - 80, n as int) =~= text::lines(log@).skip(n - 80));
        assert(feed@ =~= seq!['\n']);
        r.push('\n');
        r
    } else {
        let r = text::cut(log, 0, log.len());
        assert(r@ =~= log@);
        r
    }
}

/// The question that the user is shown.
fn question_of(t: &[char]) -> (r: Vec<char>)
    ensures
        r@ == question(t@),
{
    let ls = text::lines_of(t);
    let ghost all = text::texts(ls@);
    let mut i: usize = ls.len();
    assert(all.take(i as int) =~= all);
    while i > 0
        invariant
            i <= ls@.len(),
            all == text::texts(ls@),
            all == text::lines(t@),
            last_filled(all) == last_filled(all.take(i as int)),
        decreases i,
    {
        let line = text::trimmed(ls[i - 1].as_slice());
        assert(all.take(i as int).last() == ls@[i - 1]@);
        assert(all.take(i as int).drop_last() =~= all.take(i - 1));
        if line.len() > 0 {
            return line;
        }
        i -= 1;
    }
    text::trimmed(t)
}

/// What has been read of an operation's output.
#[derive(Debug)]
pub struct Reader {
    /// How far the operation is.
    pub percent: i32,
    /// The log that the popup shows.
    pub pending: Vec<char>,
    /// The output from the start on, up to a limit.
    pub gathered: Vec<char>,
    /// Whether the operation has moved to the terminal.
    pub escalated: bool,
}

/// What a `Reader` holds.
#[verifier::ext_equal]
pub struct ReaderView {
    pub percent: i32,
    pub pending: Seq<char>,
    pub gathered: Seq<char>,
    pub escalated: bool,
}

impl View for Reader {
    type V = ReaderView;

    open spec fn view(&self) -> ReaderView {
        ReaderView {
            percent: self.percent,
            pending: self.pending@,
            gathered: self.gathered@,
            escalated: self.escalated,
        }
    }
}

/// What follows from a piece of output.
#[derive(Debug)]
pub struct Step {
    /// What to tell the window, in order.
    pub messages: Vec<UiMessage>,
    /// Whether to answer the operation with yes.
    pub confirm: bool,
    /// Whether the log was shown.
    pub flushed: bool,
}

/// What a `Step` asks for.
#[verifier::ext_equal]
pub struct StepView {
    pub messages: Seq<UiMessageView>,
    pub confirm: bool,
    pub flushed: bool,
}

impl View for Step {
    type V = StepView;

    open spec fn view(&self) -> StepView {
        StepView {
            messages: ui::messages(self.messages@),
            confirm: self.confirm,
            flushed: self.flushed,
        }
    }
}

/// The output so far and some more of it: once it has reached 65536 bytes, no more
/// is kept.
pub open spec fn gathered_with(gathered: Seq<char>, more: Seq<char>) -> Seq<char> {
    if encode_utf8(gathered).len() < 65536 {
        gathered + more
    } else {
        gathered
    }
}

/// What follows from a piece of output that is not empty, while the operation runs
/// in its popup. `waited` is how many milliseconds ago the log was shown last.
pub open spec fn followed(r: ReaderView, t: Seq<char>, waited: u64) -> (ReaderView, StepView) {
    let gathered = gathered_with(r.gathered, t);
    let log = r.pending + log_of(text::lines(t));
    let flushed = log.len() > 0 && waited >= 150;
    let pending = if flushed {
        recent(log)
    } else {
        log
    };
    let shown = if flushed {
        seq![UiMessageView::ProgressOutput(pending)]
    } else {
        Seq::empty()
    };
    if reports_conflict(t) {
        (
            ReaderView { percent: r.percent, pending, gathered, escalated: true },
            StepView {
                messages: shown.push(UiMessageView::ShowTerminalFallback(gathered)),
                confirm: false,
                flushed,
            },
        )
    } else {
        let asked = if asks_to_proceed(t) {
            shown.push(UiMessageView::ProgressHidePrompt)
        } else if asks_user(t) {
            shown.push(UiMessageView::ProgressPrompt(question(t)))
        } else {
            shown
        };
        let (percent, told) = staged(text::lines(t), r.percent);
        (
            ReaderView { percent, pending, gathered, escalated: false },
            StepView { messages: asked + told, confirm: asks_to_proceed(t), flushed },
        )
    }
}

/// What follows from a piece of output.
pub open spec fn fed(r: ReaderView, output: Seq<char>, waited: u64) -> (ReaderView, StepView) {
    let t = terminal::displayed(output);
    if t.len() == 0 {
        (r, StepView { messages: Seq::empty(), confirm: false, flushed: false })
    } else if r.escalated {
        (
            ReaderView { gathered: gathered_with(r.gathered, t), ..r },
            StepView {
                messages: seq![UiMessageView::TerminalOutput(t)],
                confirm: false,
                flushed: false,
            },
        )
    } else {
        followed(r, t, waited)
    }
}

/// What is told when the output has ended: the rest of the log, where there is any.
pub open spec fn finished(r: ReaderView) -> Seq<UiMessageView> {
    if r.pending.len() > 0 {
        seq![UiMessageView::ProgressOutput(recent(r.pending))]
    } else {
        Seq::empty()
    }
}

/// What is told when the command has ended: to the terminal, where the operation has
/// moved there.
pub open spec fn ended(r: ReaderView, success: bool) -> UiMessageView {
    if r.escalated {
        UiMessageView::TerminalDone(success)
    } else {
        UiMessageView::OperationDone(success)
    }
}

/// What a reader holds before any output.
pub open spec fn fresh() -> ReaderView {
    ReaderView { percent: 0, pending: Seq::empty(), gathered: Seq::empty(), escalated: false }
}

impl Reader {
    /// Before any output.
    pub fn new() -> (r: Reader)
        ensures
            r@ == fresh(),
    {
        Reader { percent: 0, pending: Vec::new(), gathered: Vec::new(), escalated: false }
    }

    /// Takes in a piece of raw output, `waited` milliseconds after the log was shown
    /// last.
    pub fn read(&mut self, output: &[u8], waited: u64) -> (step: Step)
        ensures
            (final(self)@, step@) == fed(old(self)@, bytes::lossy_text(output@), waited),
    {
        let t = bytes::lossy(output);
        self.feed(t.as_str(), waited)
    }

    /// Takes in a piece of output, `waited` milliseconds after the log was shown
    /// last.
    pub fn feed(&mut self, output: &str, waited: u64) -> (step: Step)
        ensures
            (final(self)@, step@) == fed(old(self)@, output@, waited),
    {
        let cleaned = terminal::strip_ansi(output);
        let chars = text::chars_of(cleaned.as_str());
        let t = chars.as_slice();
        let mut messages: Vec<UiMessage> = Vec::new();
        if t.len() == 0 {
            assert(ui::messages(messages@) =~= Seq::empty());
            return Step { messages, confirm: false, flushed: false };
        }
        if text::byte_len(self.gathered.as_slice()) < 65536 {
            text::extend(&mut self.gathered, t);
        }
        assert(ui::messages(messages@) =~= Seq::empty());
        if self.escalated {
            ui::send(&mut messages, UiMessage::TerminalOutput(cleaned));
            return Step { messages, confirm: false, flushed: false };
        }
        let ls = text::lines_of(t);
        self.log(&ls);
        let flushed = self.pending.len() > 0 && waited >= 150;
        if flushed {
            self.pending = cut_to_recent(self.pending.as_slice());
            ui::send(
                &mut messages,
                UiMessage::ProgressOutput(text::text_of(self.pending.as_slice())),
            );
        }
        let ghost shown = ui::messages(messages@);
        if has_conflict(t) {
            self.escalated = true;
            ui::send(
                &mut messages,
                UiMessage::ShowTerminalFallback(text::text_of(self.gathered.as_slice())),
            );
            return Step { messages, confirm: false, flushed };
        }
        let confirm = auto_confirms(t);
        if confirm {
            ui::send(&mut messages, UiMessage::ProgressHidePrompt);
        } else if prompts_user(t) {
            let q = question_of(t);
            ui::send(&mut messages, UiMessage::ProgressPrompt(text::text_of(q.as_slice())));
        }
        self.advance(&ls, &mut messages);
        Step { messages, confirm, flushed }
    }

    /// Adds lines to the log.
    fn log(&mut self, ls: &Vec<Vec<char>>)
        ensures
            final(self)@ == (ReaderView {
                pending: old(self)@.pending + log_of(text::texts(ls@)),
                ..old(self)@
            }),
    {
        let ghost all = text::texts(ls@);
        let ghost start = self@;
        let mut i: usize = 0;
        assert(all.take(0) =~= Seq::empty());
        while i < ls.len()
            invariant
                i <= ls@.len(),
                all == text::texts(ls@),
                self@ == (ReaderView {
                    pending: start.pending + log_of(all.take(i as int)),
                    ..start
                }),
            decreases ls@.len() - i,
        {
            let mut line = text::trimmed(ls[i].as_slice());
            assert(all.take(i + 1).drop_last() =~= all.take(i as int));
            assert(all.take(i + 1).last() == ls@[i as int]@);
            if !terminal::is_progress_bar_line(line.as_slice()) {
                line.push('\n');
                text::extend(&mut self.pending, line.as_slice());
            }
            i += 1;
        }
        assert(all.take(all.len() as int) =~= all);
    }

    /// Follows the stages that lines of output name.
    fn advance(&mut self, ls: &Vec<Vec<char>>, messages: &mut Vec<UiMessage>)
        ensures
            final(self)@ == (ReaderView {
                percent: staged(text::texts(ls@), old(self)@.percent).0,
                ..old(self)@
            }),
            ui::messages(final(messages)@) == ui::messages(old(messages)@) + staged(
                text::texts(ls@),
                old(self)@.percent,
            ).1,
    {
        let ghost all = text::texts(ls@);
        let ghost start = self@;
        let ghost before = ui::messages(messages@);
        let mut i: usize = 0;
        assert(all.take(0) =~= Seq::empty());
        while i < ls.len()
            invariant
                i <= ls@.len(),
                all == text::texts(ls@),
                self@ == (ReaderView { percent: staged(all.take(i as int), start.percent).0, ..start }),
                ui::messages(messages@) == before + staged(all.take(i as int), start.percent).1,
            decreases ls@.len() - i,
        {
            let line = ls[i].as_slice();
            assert(all.take(i + 1).drop_last() =~= all.take(i as int));
            assert(all.take(i + 1).last() == line@);
            let now: i32 = percent_of(line, self.percent);
            let stage = text::trimmed(line);
            if now > self.percent || (now == self.percent && self.percent >= 88 && stage.len() > 0) {
                self.percent = now;
                ui::send(
                    messages,
                    UiMessage::OperationProgress(now, text::text_of(stage.as_slice())),
                );
            }
            i += 1;
        }
        assert(all.take(all.len() as int) =~= all);
    }

    /// What to tell the window when the output has ended.
    pub fn finish(&self) -> (r: Vec<UiMessage>)
        ensures
            ui::messages(r@) == finished(self@),
    {
        let mut r: Vec<UiMessage> = Vec::new();
        assert(ui::messages(r@) =~= Seq::empty());
        if self.pending.len() > 0 {
            let log = cut_to_recent(self.pending.as_slice());
            ui::send(&mut r, UiMessage::ProgressOutput(text::text_of(log.as_slice())));
        }
        r
    }

    /// What to tell the window when the command has ended.
    pub fn done(&self, success: bool) -> (r: UiMessage)
        ensures
            r@ == ended(self@, success),
    {
        if self.escalated {
            UiMessage::TerminalDone(success)
        } else {
            UiMessage::OperationDone(success)
        }
    }
}

/// What is told of a terminal command's output, where anything of it shows.
pub open spec fn printed(output: Seq<u8>) -> Seq<UiMessageView> {
    let t = terminal::displayed(bytes::lossy_text(output));
    if t.len() > 0 {
        seq![UiMessageView::TerminalOutput(t)]
    } else {
        Seq::empty()
    }
}

/// What a terminal command printed, for the window, where anything of it shows.
pub fn terminal_output(output: &[u8]) -> (r: Option<UiMessage>)
    ensures
        printed(output@) == match r {
            Some(m) => seq![m@],
            None => Seq::empty(),
        },
{
    let t = bytes::lossy(output);
    let cleaned = terminal::strip_ansi(t.as_str());
    if cleaned.as_str().is_empty() {
        None
    } else {
        Some(UiMessage::TerminalOutput(cleaned))
    }
}

/// `libc::WIFEXITED`: whether the lowest seven bits of a wait status are clear, which
/// says that the process ended by itself.
#[verifier::external_body]
fn exited(status: i32) -> (r: bool)
    ensures
        r == (status & 0x7f == 0),
{
    libc::WIFEXITED(status)
}

/// `libc::WEXITSTATUS`: the second lowest byte of a wait status, the code that the
/// process ended with.
#[verifier::external_body]
fn exit_status(status: i32) -> (r: i32)
    ensures
        r == (status >> 8) & 0xff,
{
    libc::WEXITSTATUS(status)
}

/// A wait status of a process that ended by itself and with success.
pub open spec fn is_success(status: i32) -> bool {
    status & 0x7f == 0 && (status >> 8) & 0xff == 0
}

/// Whether a process with this wait status ended by itself and with success.
pub fn succeeded(status: i32) -> (r: bool)
    ensures
        r == is_success(status),
{
    exited(status) && exit_status(status) == 0
}

/// The operation never falls back, and the window is told no smaller percentage
/// than before.
pub proof fn stages_never_fall(ls: Seq<Seq<char>>, percent: i32)
    ensures
        staged(ls, percent).0 >= percent,
        forall|i: int|
            0 <= i < staged(ls, percent).1.len() ==> (#[trigger] staged(ls, percent).1[i] matches
                UiMessageView::OperationProgress(p, _) && percent <= p <= staged(ls, percent).0),
        forall|i: int, j: int|
            #![trigger staged(ls, percent).1[i], staged(ls, percent).1[j]]
            0 <= i <= j < staged(ls, percent).1.len() ==> staged(ls, percent).1[i]->OperationProgress_0
                <= staged(ls, percent).1[j]->OperationProgress_0,
    decreases ls.len(),
{
    if ls.len() > 0 {
        stages_never_fall(ls.drop_last(), percent);
    }
}

/// Whatever the output says, the percentage does not fall, and an operation that has
/// moved to the terminal stays there.
pub proof fn reading_never_falls_back(r: ReaderView, output: Seq<char>, waited: u64)
    ensures
        fed(r, output, waited).0.percent >= r.percent,
        r.escalated ==> fed(r, output, waited).0.escalated,
{
    stages_never_fall(text::lines(terminal::displayed(output)), r.percent);
}

/// An operation moves to the terminal exactly when its output reports a conflict, and
/// all that was gathered goes along.
pub proof fn conflict_moves_to_the_terminal(r: ReaderView, output: Seq<char>, waited: u64)
    requires
        !r.escalated,
    ensures
        ({
            let t = terminal::displayed(output);
            let (after, step) = fed(r, output, waited);
            &&& after.escalated <==> t.len() > 0 && reports_conflict(t)
            &&& after.escalated ==> step.messages.last() == UiMessageView::ShowTerminalFallback(
                after.gathered,
            ) && !step.confirm
        }),
{
}

/// The log that the popup shows has at most 80 lines.
pub proof fn recent_is_short(log: Seq<char>)
    ensures
        text::lines(recent(log)).len() <= 80,
{
    let ls = text::lines(log);
    if ls.len() > 80 {
        let kept = ls.skip(ls.len() - 80);
        text::lines_hold_no_feed(log);
        assert forall|i: int| 0 <= i < kept.len() implies !(#[trigger] kept[i]).contains('\n') by {
            assert(kept[i] == ls[i + ls.len() - 80]);
        }
        let ended = kept.push(Seq::<char>::empty());
        assert forall|i: int| 0 <= i < ended.len() implies !(#[trigger] ended[i]).contains('\n') by {
            if i < kept.len() {
                assert(!kept[i].contains('\n'));
            }
        }
        text::split_undoes_join(ended, '\n');
        assert(ended.drop_last() =~= kept);
        assert(text::join(ended, seq!['\n']) =~= recent(log));
    }
}

/// A count that has not gone past its total gives a percentage within its range.
pub proof fn counts_stay_in_range(line: Seq<char>, range_start: i32, range_end: i32)
    requires
        range_start <= range_end,
        range_end - range_start <= i32::MAX,
        counted(line) matches Some((done, total)) && 0 <= done <= total,
    ensures
        progress_fraction(line, range_start, range_end) matches Some(p) && range_start <= p
            <= range_end,
{
    let (done, total) = counted(line).unwrap();
    let span = range_end - range_start;
    let size = rounding::double_scaled(done as nat, total as nat, span as nat);
    rounding::scaled_is_monotone(done as nat, total as nat, total as nat, span as nat);
    if span == 0 {
        rounding::no_span_is_nothing(total as nat);
    } else {
        rounding::whole_is_exact(total as nat, span as nat);
    }
    assert(size <= span);
    assert(share(done, total, span) == size);
}

/// As long as counts do not go past their totals, no line takes an operation past 97
/// percent: only its end makes it 100.
pub proof fn stages_stay_below_the_end(line: Seq<char>, current: i32)
    requires
        counted(line) matches Some((done, total)) ==> 0 <= done <= total,
        current <= 97,
    ensures
        stage_percent(line, current) <= 97,
{
    if counted(line) is Some {
        counts_stay_in_range(line, 20, 50);
        counts_stay_in_range(line, 60, 85);
    }
}

/// The longer forms of the questions hold the shorter ones.
proof fn longer_questions(t: Seq<char>)
    ensures
        text::has(t, ":: Proceed with installation? [Y/n]"@) ==> text::has(
            t,
            "Proceed with installation? [Y/n]"@,
        ),
        text::has(t, ":: Proceed with download? [Y/n]"@) ==> text::has(
            t,
            "Proceed with download? [Y/n]"@,
        ),
        text::has(t, ":: Do you want to remove these packages? [y/N]"@) ==> text::has(
            t,
            "Do you want to remove these packages? [y/N]"@,
        ),
{
    reveal_strlit("Proceed with installation? [Y/n]");
    reveal_strlit(":: Proceed with installation? [Y/n]");
    reveal_strlit("Proceed with download? [Y/n]");
    reveal_strlit(":: Proceed with download? [Y/n]");
    reveal_strlit("Do you want to remove these packages? [y/N]");
    reveal_strlit(":: Do you want to remove these packages? [y/N]");
    let a = seq![':', ':', ' '];
    let b = Seq::<char>::empty();
    assert(":: Proceed with installation? [Y/n]"@ =~= a + "Proceed with installation? [Y/n]"@ + b);
    assert(":: Proceed with download? [Y/n]"@ =~= a + "Proceed with download? [Y/n]"@ + b);
    assert(":: Do you want to remove these packages? [y/N]"@ =~= a
        + "Do you want to remove these packages? [y/N]"@ + b);
    if text::has(t, ":: Proceed with installation? [Y/n]"@) {
        text::has_the_parts(
            t,
            ":: Proceed with installation? [Y/n]"@,
            a,
            "Proceed with installation? [Y/n]"@,
            b,
        );
    }
    if text::has(t, ":: Proceed with download? [Y/n]"@) {
        text::has_the_parts(
            t,
            ":: Proceed with download? [Y/n]"@,
            a,
            "Proceed with download? [Y/n]"@,
            b,
        );
    }
    if text::has(t, ":: Do you want to remove these packages? [y/N]"@) {
        text::has_the_parts(
            t,
            ":: Do you want to remove these packages? [y/N]"@,
            a,
            "Do you want to remove these packages? [y/N]"@,
            b,
        );
    }
}

/// Nothing is asked in a text that is empty.
proof fn nothing_asks_nothing(t: Seq<char>)
    requires
        t.len() == 0,
    ensures
        !asks_to_proceed(t),
        !asks_user(t),
{
    reveal_strlit("Proceed with installation? [Y/n]");
    reveal_strlit(":: Proceed with installation? [Y/n]");
    reveal_strlit("Proceed with download? [Y/n]");
    reveal_strlit(":: Proceed with download? [Y/n]");
    reveal_strlit("Do you want to remove these packages? [y/N]");
    reveal_strlit(":: Do you want to remove these packages? [y/N]");
    reveal_strlit(":: Replace");
    reveal_strlit(":: Import");
    reveal_strlit("Enter a number");
    reveal_strlit("Enter a selection");
    reveal_strlit("Terminate batch job");
    reveal_strlit("[y/N]");
}

/// What moves an operation to the terminal: one of six reports, in any case, in what is
/// displayed of its output.
pub proof fn reports_that_move(r: ReaderView, output: Seq<char>, waited: u64)
    requires
        !r.escalated,
        terminal::displayed(output).len() > 0,
    ensures
        ({
            let l = text::lowercase(terminal::displayed(output));
            fed(r, output, waited).0.escalated <==> text::has(l, "conflicting files"@) || text::has(
                l,
                "are in conflict"@,
            ) || text::has(l, "exists in filesystem"@) || text::has(l, "breaks dependency"@)
                || text::has(l, "could not satisfy dependencies"@) || text::has(
                l,
                "failed to commit transaction"@,
            )
        }),
{
}

/// An operation is answered with yes exactly where what is displayed of its output asks
/// whether to proceed with the installation or the download, or to remove the packages, and
/// reports nothing that moves it to the terminal. The prompt is then taken away. Any other
/// question that is known is the user's: it is shown, and not answered.
pub proof fn only_listed_questions_are_answered(r: ReaderView, output: Seq<char>, waited: u64)
    requires
        !r.escalated,
    ensures
        ({
            let t = terminal::displayed(output);
            let (after, step) = fed(r, output, waited);
            let listed = text::has(t, "Proceed with installation? [Y/n]"@) || text::has(
                t,
                "Proceed with download? [Y/n]"@,
            ) || text::has(t, "Do you want to remove these packages? [y/N]"@);
            let other = text::has(t, ":: Replace"@) || text::has(t, ":: Import"@) || text::has(
                t,
                "Enter a number"@,
            ) || text::has(t, "Enter a selection"@) || text::has(t, "Terminate batch job"@)
                || text::has(t, "[y/N]"@);
            &&& step.confirm <==> listed && !after.escalated
            &&& step.messages.contains(UiMessageView::ProgressHidePrompt) <==> step.confirm
            &&& (exists|q: Seq<char>| #[trigger] step.messages.contains(UiMessageView::ProgressPrompt(q)))
                <==> other && !listed && !after.escalated
            &&& forall|q: Seq<char>| #[trigger]
                step.messages.contains(UiMessageView::ProgressPrompt(q)) ==> q == question(t)
        }),
{
    let t = terminal::displayed(output);
    longer_questions(t);
    if t.len() == 0 {
        nothing_asks_nothing(t);
    } else if !reports_conflict(t) {
        let (after, step) = fed(r, output, waited);
        let told = staged(text::lines(t), r.percent).1;
        stages_never_fall(text::lines(t), r.percent);
        let asked = step.messages.take(step.messages.len() - told.len());
        assert(step.messages =~= asked + told);
        assert forall|m: UiMessageView| step.messages.contains(m) && !(m is OperationProgress) implies asked.contains(
            m,
        ) by {
            let i = choose|i: int| 0 <= i < step.messages.len() && step.messages[i] == m;
            if i >= asked.len() {
                assert(step.messages[i] == told[i - asked.len()]);
            } else {
                assert(asked[i] == m);
            }
        }
        let log = r.pending + log_of(text::lines(t));
        let shown = if log.len() > 0 && waited >= 150 {
            seq![UiMessageView::ProgressOutput(recent(log))]
        } else {
            Seq::empty()
        };
        if asks_to_proceed(t) {
            assert(asked =~= shown.push(UiMessageView::ProgressHidePrompt));
            assert(step.messages[asked.len() - 1] == UiMessageView::ProgressHidePrompt);
        } else if asks_user(t) {
            assert(asked =~= shown.push(UiMessageView::ProgressPrompt(question(t))));
            assert(step.messages[asked.len() - 1] == UiMessageView::ProgressPrompt(question(t)));
            assert(step.messages.contains(UiMessageView::ProgressPrompt(question(t))));
        } else {
            assert(asked =~= shown);
        }
        assert forall|m: UiMessageView| step.messages.contains(m) && !(m is OperationProgress)
            && !(m is ProgressOutput) implies asked.last() == m && asked.len() > shown.len() by {
            assert(asked.contains(m));
        }
    } else {
        let step = fed(r, output, waited).1;
        assert forall|m: UiMessageView| step.messages.contains(m) implies m is ProgressOutput
            || m is ShowTerminalFallback by {}
    }
}

/// The question that the user is shown is the last line that is not blank, without the
/// spaces around it.
pub proof fn question_is_the_last_line(t: Seq<char>, n: int)
    requires
        0 <= n < text::lines(t).len(),
        text::trim(text::lines(t)[n]).len() > 0,
        forall|k: int|
            n < k < text::lines(t).len() ==> text::trim(#[trigger] text::lines(t)[k]).len() == 0,
    ensures
        question(t) == text::trim(text::lines(t)[n]),
{
    last_filled_is_found(text::lines(t), n);
}

/// The last line that is not blank is found.
proof fn last_filled_is_found(ls: Seq<Seq<char>>, n: int)
    requires
        0 <= n < ls.len(),
        text::trim(ls[n]).len() > 0,
        forall|k: int| n < k < ls.len() ==> text::trim(#[trigger] ls[k]).len() == 0,
    ensures
        last_filled(ls) == Some(ls[n]),
    decreases ls.len(),
{
    if n < ls.len() - 1 {
        assert(text::trim(ls[ls.len() - 1]).len() == 0);
        assert forall|k: int| n < k < ls.len() - 1 implies text::trim(
            #[trigger] ls.drop_last()[k],
        ).len() == 0 by {
            assert(ls.drop_last()[k] == ls[k]);
        }
        last_filled_is_found(ls.drop_last(), n);
    }
}

/// The stages of an operation: what a line names, in any case, says how far it is, and a
/// line that names none changes nothing.
pub proof fn stages_are_named(line: Seq<char>, current: i32)
    ensures
        ({
            let l = text::lowercase(line);
            let p = stage_percent(line, current);
            let resolving = text::has(l, "resolving dependencies"@);
            let looking = text::has(l, "looking for conflicting"@);
            let downloading = text::has(l, "downloading"@);
            let keyring = text::has(l, "checking keyring"@) || text::has(l, "checking integrity"@);
            let checking = text::has(l, "checking package integrity"@);
            let files = text::has(l, "loading package files"@);
            let changing = text::has(l, "installing"@) || text::has(l, "upgrading"@) || text::has(
                l,
                "removing"@,
            );
            let hooks = text::has(l, "running post-transaction hooks"@);
            let modules = text::has(l, "arming conditionpathexists"@) || text::has(
                l,
                "updating linux module"@,
            ) || text::has(l, "dkms"@);
            let images = text::has(l, "updating linux initcpios"@) || text::has(l, "mkinitcpio"@);
            let boot = text::has(l, "updating grub"@) || text::has(l, "grub-mkconfig"@);
            let last = text::has(l, "updating the info"@) || text::has(l, "updating the desktop"@)
                || text::has(l, "updating mime"@);
            let early = resolving || looking || downloading || keyring || checking || files;
            &&& resolving ==> p == 10
            &&& looking && !resolving ==> p == 15
            &&& downloading && !resolving && !looking && counted(line) is None ==> p == 35
            &&& downloading && !resolving && !looking && counted(line) is Some ==> Some(p)
                == progress_fraction(line, 20, 50)
            &&& keyring && !resolving && !looking && !downloading ==> p == 52
            &&& checking && !resolving && !looking && !downloading && !keyring ==> p == 55
            &&& files && !resolving && !looking && !downloading && !keyring && !checking ==> p == 58
            &&& changing && !early && counted(line) is None ==> p == 72
            &&& changing && !early && counted(line) is Some ==> Some(p) == progress_fraction(
                line,
                60,
                85,
            )
            &&& hooks && !early && !changing ==> p == 88
            &&& modules && !early && !changing && !hooks ==> p == 90
            &&& images && !early && !changing && !hooks && !modules ==> p == 92
            &&& boot && !early && !changing && !hooks && !modules && !images ==> p == 95
            &&& last && !early && !changing && !hooks && !modules && !images && !boot ==> p == 97
            &&& !early && !changing && !hooks && !modules && !images && !boot && !last ==> p
                == current
        }),
{
    let l = text::lowercase(line);
    reveal_strlit("reinstalling");
    reveal_strlit("installing");
    assert("reinstalling"@ =~= seq!['r', 'e'] + "installing"@ + Seq::<char>::empty());
    if text::has(l, "reinstalling"@) {
        text::has_the_parts(
            l,
            "reinstalling"@,
            seq!['r', 'e'],
            "installing"@,
            Seq::<char>::empty(),
        );
    }
}

/// The window is told of a line exactly where it takes the operation further, or where the
/// operation is at 88 percent or beyond, the line is not blank and it does not fall back.
/// It is told the percentage and the line without the spaces around it.
pub proof fn advances_are_told(ls: Seq<Seq<char>>, line: Seq<char>, percent: i32)
    ensures
        ({
            let (p, told) = staged(ls, percent);
            let (q, more) = staged(ls.push(line), percent);
            let now = stage_percent(line, p);
            if now > p || (now == p && p >= 88 && text::trim(line).len() > 0) {
                q == now && more == told.push(
                    UiMessageView::OperationProgress(now, text::trim(line)),
                )
            } else {
                q == p && more == told
            }
        }),
        staged(Seq::empty(), percent) == (percent, Seq::<UiMessageView>::empty()),
{
    assert(ls.push(line).drop_last() =~= ls);
}

/// All lines of a piece of output are looked at, in order.
pub proof fn output_is_followed(r: ReaderView, output: Seq<char>, waited: u64)
    requires
        !r.escalated,
        !fed(r, output, waited).0.escalated,
    ensures
        ({
            let (after, step) = fed(r, output, waited);
            let (percent, told) = staged(text::lines(terminal::displayed(output)), r.percent);
            &&& after.percent == percent
            &&& told.len() <= step.messages.len()
            &&& step.messages.skip(step.messages.len() - told.len()) == told
        }),
{
    let t = terminal::displayed(output);
    let (after, step) = fed(r, output, waited);
    let told = staged(text::lines(t), r.percent).1;
    if t.len() == 0 {
        text::unsplit(t, Sep::At('\n'));
        assert(text::lines(t) =~= Seq::empty());
    }
    assert(step.messages.skip(step.messages.len() - told.len()) =~= told);
}

/// A count in round brackets, such as `(3/12)`, is read wherever it stands in a line that
/// holds no other opening bracket in front of it.
pub proof fn counts_are_read(a: Seq<char>, done: nat, total: nat, b: Seq<char>)
    requires
        !a.contains('('),
        done <= 0x7fff_ffff,
        0 < total <= 0x7fff_ffff,
    ensures
        counted(
            a + seq!['('] + text::decimal(done) + seq!['/'] + text::decimal(total) + seq![')'] + b,
        ) == Some((done as int, total as int)),
{
    let x = text::decimal(done);
    let y = text::decimal(total);
    text::written_numbers_are_read(done, done);
    text::written_numbers_are_read(total, total);
    let line = a + seq!['('] + x + seq!['/'] + y + seq![')'] + b;
    let at = a.len() as int;
    let inner = x.push('/') + y;
    let end = at + 1 + inner.len();
    text::find_from_is_first(line, seq!['('], 0);
    assert(text::occurs_at(line, seq!['('], at)) by {
        assert(line.subrange(at, at + 1) =~= seq!['(']);
    }
    assert forall|j: int| 0 <= j < at implies !text::occurs_at(line, seq!['('], j) by {
        if text::occurs_at(line, seq!['('], j) {
            assert(line.subrange(j, j + 1)[0] == line[j]);
            assert(line[j] == a[j]);
        }
    }
    assert(text::find_from(line, seq!['('], 0) == Some(at));
    text::find_from_is_first(line, seq![')'], at);
    assert(text::occurs_at(line, seq![')'], end)) by {
        assert(line.subrange(end, end + 1) =~= seq![')']);
    }
    assert forall|j: int| at <= j < end implies !text::occurs_at(line, seq![')'], j) by {
        if text::occurs_at(line, seq![')'], j) {
            assert(line.subrange(j, j + 1)[0] == line[j]);
            if j > at {
                assert(line[j] == inner[j - at - 1]);
                if j - at - 1 < x.len() {
                    assert(text::is_digit(x[j - at - 1]));
                } else if j - at - 1 > x.len() {
                    assert(text::is_digit(y[j - at - 2 - x.len()]));
                }
            }
        }
    }
    assert(text::find_from(line, seq![')'], at) == Some(end));
    assert(line.subrange(at + 1, end) =~= inner);
    assert forall|i: int| 0 <= i < y.len() implies !Sep::At('/').splits(#[trigger] y[i]) by {
        assert(text::is_digit(y[i]));
    }
    assert forall|i: int| 0 <= i < x.len() implies !Sep::At('/').splits(#[trigger] x[i]) by {
        assert(text::is_digit(x[i]));
    }
    text::split_behind(x, '/', y, Sep::At('/'));
    text::unsplit(x, Sep::At('/'));
    let parts = seq![x].push(y);
    assert(parts[0] == x && parts[1] == y);
    let none = Seq::<char>::empty();
    assert(text::is_digit(x.first()) && text::is_digit(x.last())) by {
        assert(text::is_digit(x[0]) && text::is_digit(x[x.len() - 1]));
    }
    assert(text::is_digit(y.first()) && text::is_digit(y.last())) by {
        assert(text::is_digit(y[0]) && text::is_digit(y[y.len() - 1]));
    }
    text::trimming_finds_the_middle(none, x, none);
    text::trimming_finds_the_middle(none, y, none);
    assert(none + x + none =~= x);
    assert(none + y + none =~= y);
}

/// A count that has come to its total gives the end of the range, and one that has not
/// begun its start; one that is further along gives no less.
#[verifier::rlimit(40)]
pub proof fn counts_fill_the_range(line: Seq<char>, further: Seq<char>, from: i32, to: i32)
    requires
        0 <= from <= to <= 1000,
        counted(line) matches Some((done, total)) && 0 <= done <= total && (counted(
            further,
        ) matches Some((more, whole)) && whole == total && done <= more <= total),
    ensures
        ({
            let (done, total) = counted(line).unwrap();
            &&& done == total ==> progress_fraction(line, from, to) == Some(to)
            &&& done == 0 ==> progress_fraction(line, from, to) == Some(from)
            &&& progress_fraction(line, from, to).unwrap() <= progress_fraction(
                further,
                from,
                to,
            ).unwrap()
        }),
{
    let (done, total) = counted(line).unwrap();
    let (more, whole) = counted(further).unwrap();
    let span = to - from;
    counts_stay_in_range(line, from, to);
    counts_stay_in_range(further, from, to);
    rounding::scaled_is_monotone(done as nat, more as nat, total as nat, span as nat);
    rounding::scaled_is_monotone(more as nat, total as nat, total as nat, span as nat);
    if span == 0 {
        rounding::no_span_is_nothing(total as nat);
    } else {
        rounding::whole_is_exact(total as nat, span as nat);
    }
    if done == 0 {
        rounding::no_part_is_nothing(total as nat, span as nat);
    }
}

/// The log gets every line that is displayed but blank ones and progress bars, without the
/// spaces around it, in order.
pub proof fn lines_are_logged(ls: Seq<Seq<char>>, line: Seq<char>)
    ensures
        log_of(Seq::empty()) == Seq::<char>::empty(),
        log_of(ls.push(line)) == (if terminal::is_progress_bar(text::trim(line)) {
            log_of(ls)
        } else {
            log_of(ls) + text::trim(line) + seq!['\n']
        }),
{
    assert(ls.push(line).drop_last() =~= ls);
    assert(log_of(ls) + text::trim(line).push('\n') =~= log_of(ls) + text::trim(line) + seq![
        '\n',
    ]);
}

/// The log is shown once it was not for 150 milliseconds and holds anything, and not
/// before: then all of it goes to the window, as far as it is recent.
pub proof fn log_is_shown_in_time(r: ReaderView, output: Seq<char>, waited: u64)
    requires
        !r.escalated,
        terminal::displayed(output).len() > 0,
    ensures
        ({
            let log = r.pending + log_of(text::lines(terminal::displayed(output)));
            let (after, step) = fed(r, output, waited);
            let due = log.len() > 0 && waited >= 150;
            &&& step.flushed <==> due
            &&& due ==> step.messages.len() > 0 && step.messages[0]
                == UiMessageView::ProgressOutput(recent(log)) && after.pending == recent(log)
            &&& !due ==> after.pending == log && forall|i: int|
                0 <= i < step.messages.len() ==> !(#[trigger] step.messages[i] is ProgressOutput)
        }),
{
    stages_never_fall(text::lines(terminal::displayed(output)), r.percent);
}

/// The recent log is the last 80 lines of the log, and all of it where there are no more.
pub proof fn recent_are_the_last_lines(v: Seq<Seq<char>>)
    requires
        v.len() > 0,
        forall|i: int|
            0 <= i < v.len() ==> !(#[trigger] v[i]).contains('\n') && (v[i].len() > 0 ==> v[i].last()
                != '\r'),
    ensures
        ({
            let log = text::join(v, seq!['\n']).push('\n');
            &&& v.len() <= 80 ==> recent(log) == log
            &&& v.len() > 80 ==> recent(log) == text::join(v.skip(v.len() - 80), seq!['\n']).push(
                '\n',
            )
        }),
{
    text::written_lines_are_read(v);
}

/// What an operation displays is gathered from its start on, until it is 65536 bytes long;
/// when it moves to the terminal, what was gathered goes along, and from then on what it
/// displays goes there.
pub proof fn output_is_gathered(r: ReaderView, output: Seq<char>, waited: u64)
    ensures
        ({
            let t = terminal::displayed(output);
            let (after, step) = fed(r, output, waited);
            &&& encode_utf8(r.gathered).len() < 65536 ==> after.gathered == r.gathered + t
            &&& encode_utf8(r.gathered).len() >= 65536 ==> after.gathered == r.gathered
            &&& r.escalated && t.len() > 0 ==> step.messages == seq![
                UiMessageView::TerminalOutput(t),
            ]
            &&& !r.escalated && after.escalated ==> step.messages.last()
                == UiMessageView::ShowTerminalFallback(after.gathered)
            &&& t.len() == 0 ==> step.messages.len() == 0 && after == r
        }),
{
    let t = terminal::displayed(output);
    if t.len() == 0 {
        assert(r.gathered + t =~= r.gathered);
    }
}

/// A process was successful exactly where no signal ended it, which the lowest seven bits
/// of its status say, and its code, the second byte, is zero.
pub proof fn codes_say_how_it_went(status: i32)
    requires
        0 <= status,
    ensures
        is_success(status) <==> status % 128 == 0 && (status / 256) % 256 == 0,
{
    assert(0 <= status ==> status & 0x7f == status % 128) by (bit_vector);
    assert(0 <= status ==> (status >> 8) & 0xff == (status / 256) % 256) by (bit_vector);
}

/// What is left of the log at the end is shown, its last lines; output of a terminal is
/// shown as it is displayed, unless nothing of it is.
pub proof fn rests_are_shown(r: ReaderView, output: Seq<u8>)
    ensures
        r.pending.len() > 0 ==> finished(r) == seq![UiMessageView::ProgressOutput(
            recent(r.pending),
        )],
        r.pending.len() == 0 ==> finished(r).len() == 0,
        ({
            let t = terminal::displayed(bytes::lossy_text(output));
            &&& t.len() > 0 ==> printed(output) == seq![UiMessageView::TerminalOutput(t)]
            &&& t.len() == 0 ==> printed(output).len() == 0
        }),
{
}

/// A count takes the percentage as far into its range as it is to its total: to the exact
/// share, or next to it.
pub proof fn counts_are_shares(line: Seq<char>, from: i32, to: i32)
    requires
        0 <= from <= to <= 100,
        counted(line) matches Some((done, total)) && 0 <= done <= total,
    ensures
        ({
            let (done, total) = counted(line).unwrap();
            let at = progress_fraction(line, from, to).unwrap() - from;
            &&& progress_fraction(line, from, to) is Some
            &&& at * total < (to - from) * done + total
            &&& (to - from) * done < (at + 2) * total
        }),
{
    let (done, total) = counted(line).unwrap();
    let span = to - from;
    counts_stay_in_range(line, from, to);
    rounding::scaled_is_near(done as nat, total as nat, span as nat);
    rounding::scaled_is_monotone(done as nat, total as nat, total as nat, span as nat);
    if span == 0 {
        rounding::no_span_is_nothing(total as nat);
    } else {
        rounding::whole_is_exact(total as nat, span as nat);
    }
}

} // verus!
