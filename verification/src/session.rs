//! What the window is told while a command runs.
use crate::bytes;
use crate::jobs;
use crate::runner;
use crate::runner::{Reader, ReaderView, Step, StepView};
use crate::terminal;
use crate::text;
use crate::ui;
use crate::ui::{UiMessage, UiMessageView};
use vstd::prelude::*;

verus! {

broadcast use vstd::seq_lib::group_seq_properties;

/// What happens to a command.
#[derive(Debug)]
pub enum Event {
    /// It was asked for, under a title.
    Asked(String),
    /// It could not be started.
    Failed(String),
    /// It wrote something, so many milliseconds after the log was shown last.
    Read(Vec<u8>, u64),
    /// It ended, with this wait status.
    Ended(i32),
}

/// What an `Event` holds.
#[verifier::ext_equal]
pub enum EventView {
    Asked(Seq<char>),
    Failed(Seq<char>),
    Read(Seq<u8>, u64),
    Ended(i32),
}

impl View for Event {
    type V = EventView;

    open spec fn view(&self) -> EventView {
        match *self {
            Event::Asked(title) => EventView::Asked(title@),
            Event::Failed(error) => EventView::Failed(error@),
            Event::Read(output, waited) => EventView::Read(output@, waited),
            Event::Ended(status) => EventView::Ended(status),
        }
    }
}

/// Messages, with nothing else to do.
pub open spec fn only(messages: Seq<UiMessageView>) -> StepView {
    StepView { messages, confirm: false, flushed: false }
}

/// What follows from an event of an operation that shows its progress.
pub open spec fn managed_step(r: ReaderView, e: EventView) -> (ReaderView, StepView) {
    match e {
        EventView::Asked(title) => (r, only(seq![UiMessageView::ShowProgressPopup(title)])),
        EventView::Failed(error) => (
            r,
            only(
                seq![
                    UiMessageView::OperationProgress(0, "Error: "@ + error),
                    UiMessageView::OperationDone(false),
                ],
            ),
        ),
        EventView::Read(output, waited) => runner::fed(r, bytes::lossy_text(output), waited),
        EventView::Ended(status) => (
            r,
            only(runner::finished(r).push(runner::ended(r, runner::is_success(status)))),
        ),
    }
}

/// What follows from an event of a command in the terminal.
pub open spec fn terminal_step(e: EventView) -> Seq<UiMessageView> {
    match e {
        EventView::Asked(title) => seq![UiMessageView::ShowTerminal(title)],
        EventView::Failed(error) => seq![
            UiMessageView::TerminalOutput("Error: "@ + error + "\n"@),
            UiMessageView::TerminalDone(false),
        ],
        EventView::Read(output, _) => runner::printed(output),
        EventView::Ended(status) => seq![UiMessageView::TerminalDone(runner::is_success(status))],
    }
}

/// Takes in an event of an operation that shows its progress.
pub fn managed(reader: &mut Reader, event: &Event) -> (step: Step)
    ensures
        (final(reader)@, step@) == managed_step(old(reader)@, event@),
{
    let mut messages: Vec<UiMessage> = Vec::new();
    assert(ui::messages(messages@) =~= Seq::empty());
    match event {
        Event::Asked(title) => {
            ui::send(&mut messages, UiMessage::ShowProgressPopup(title.clone()));
        },
        Event::Failed(error) => {
            let (progress, done) = jobs::managed_failure(error.as_str());
            ui::send(&mut messages, progress);
            ui::send(&mut messages, done);
        },
        Event::Read(output, waited) => {
            return reader.read(output.as_slice(), *waited);
        },
        Event::Ended(status) => {
            messages = reader.finish();
            let success = runner::succeeded(*status);
            ui::send(&mut messages, reader.done(success));
        },
    }
    Step { messages, confirm: false, flushed: false }
}

/// What to tell the window of an event of a command in the terminal.
pub fn in_terminal(event: &Event) -> (r: Vec<UiMessage>)
    ensures
        ui::messages(r@) == terminal_step(event@),
{
    let mut messages: Vec<UiMessage> = Vec::new();
    assert(ui::messages(messages@) =~= Seq::empty());
    match event {
        Event::Asked(title) => {
            ui::send(&mut messages, UiMessage::ShowTerminal(title.clone()));
        },
        Event::Failed(error) => {
            let (output, done) = jobs::terminal_failure(error.as_str());
            ui::send(&mut messages, output);
            ui::send(&mut messages, done);
        },
        Event::Read(output, _) => match runner::terminal_output(output.as_slice()) {
            Some(message) => {
                ui::send(&mut messages, message);
            },
            None => {},
        },
        Event::Ended(status) => {
            ui::send(&mut messages, UiMessage::TerminalDone(runner::succeeded(*status)));
        },
    }
    messages
}

/// What an operation has come to, and all that was told, after events one after the other.
pub open spec fn managed_run(r: ReaderView, events: Seq<EventView>) -> (
    ReaderView,
    Seq<UiMessageView>,
)
    decreases events.len(),
{
    if events.len() == 0 {
        (r, Seq::empty())
    } else {
        let (before, told) = managed_run(r, events.drop_last());
        let (after, step) = managed_step(before, events.last());
        (after, told + step.messages)
    }
}

/// All that is told of a command in the terminal, after events one after the other.
pub open spec fn terminal_run(events: Seq<EventView>) -> Seq<UiMessageView>
    decreases events.len(),
{
    if events.len() == 0 {
        Seq::empty()
    } else {
        terminal_run(events.drop_last()) + terminal_step(events.last())
    }
}

/// A command that is asked for, writes and ends.
pub open spec fn whole(title: Seq<char>, reads: Seq<(Seq<u8>, u64)>, status: i32) -> Seq<
    EventView,
> {
    started(title, reads).push(EventView::Ended(status))
}

/// A command that is asked for and writes.
pub open spec fn started(title: Seq<char>, reads: Seq<(Seq<u8>, u64)>) -> Seq<EventView>
    decreases reads.len(),
{
    if reads.len() == 0 {
        seq![EventView::Asked(title)]
    } else {
        started(title, reads.drop_last()).push(EventView::Read(reads.last().0, reads.last().1))
    }
}

/// The percentage that a message names.
pub open spec fn percent_in(m: UiMessageView) -> Option<i32> {
    match m {
        UiMessageView::OperationProgress(p, _) => Some(p),
        _ => None,
    }
}

/// A message that says that the command has ended.
pub open spec fn is_end(m: UiMessageView) -> bool {
    m is OperationDone || m is TerminalDone
}

/// What is told of one piece of output: no percentage below the one before, no percentage
/// that falls, and no end.
proof fn step_goes_on(r: ReaderView, output: Seq<char>, waited: u64)
    ensures
        ({
            let (after, step) = runner::fed(r, output, waited);
            let told = step.messages;
            &&& r.percent <= after.percent
            &&& forall|i: int| 0 <= i < told.len() ==> !is_end(#[trigger] told[i])
            &&& forall|i: int|
                0 <= i < told.len() ==> (percent_in(#[trigger] told[i]) matches Some(p)
                    ==> r.percent <= p <= after.percent)
            &&& forall|i: int, j: int|
                #![trigger told[i], told[j]]
                0 <= i <= j < told.len() && percent_in(told[i]) is Some && percent_in(
                    told[j],
                ) is Some ==> percent_in(told[i])->0 <= percent_in(told[j])->0
        }),
{
    let ls = text::lines(terminal::displayed(output));
    runner::stages_never_fall(ls, r.percent);
}

/// The progress of an operation never falls, however its output comes: of all that is told
/// from its start to its end, a later percentage is never below an earlier one.
pub proof fn progress_never_falls(
    title: Seq<char>,
    reads: Seq<(Seq<u8>, u64)>,
    status: i32,
    i: int,
    j: int,
)
    requires
        0 <= i <= j < managed_run(runner::fresh(), whole(title, reads, status)).1.len(),
        percent_in(managed_run(runner::fresh(), whole(title, reads, status)).1[i]) is Some,
        percent_in(managed_run(runner::fresh(), whole(title, reads, status)).1[j]) is Some,
    ensures
        percent_in(managed_run(runner::fresh(), whole(title, reads, status)).1[i])->0
            <= percent_in(managed_run(runner::fresh(), whole(title, reads, status)).1[j])->0,
{
    let events = started(title, reads);
    let all = whole(title, reads, status);
    assert(all.drop_last() =~= events);
    assert(all.last() == EventView::Ended(status));
    started_run(title, reads);
}

/// What is told until a command ends.
proof fn started_run(title: Seq<char>, reads: Seq<(Seq<u8>, u64)>)
    ensures
        ({
            let (r, told) = managed_run(runner::fresh(), started(title, reads));
            &&& 0 <= r.percent
            &&& told.len() > 0
            &&& told[0] == UiMessageView::ShowProgressPopup(title)
            &&& forall|i: int| 0 <= i < told.len() ==> !is_end(#[trigger] told[i])
            &&& forall|i: int|
                0 <= i < told.len() ==> (percent_in(#[trigger] told[i]) matches Some(p)
                    ==> p <= r.percent)
            &&& forall|i: int, j: int|
                #![trigger told[i], told[j]]
                0 <= i <= j < told.len() && percent_in(told[i]) is Some && percent_in(
                    told[j],
                ) is Some ==> percent_in(told[i])->0 <= percent_in(told[j])->0
        }),
    decreases reads.len(),
{
    let events = started(title, reads);
    let (r, told) = managed_run(runner::fresh(), events);
    let (before, earlier) = managed_run(runner::fresh(), events.drop_last());
    let (after, step) = managed_step(before, events.last());
    if reads.len() == 0 {
        assert(events.drop_last() =~= Seq::empty());
        assert(told =~= seq![UiMessageView::ShowProgressPopup(title)]);
    } else {
        assert(events.drop_last() =~= started(title, reads.drop_last()));
        started_run(title, reads.drop_last());
        let output = bytes::lossy_text(reads.last().0);
        step_goes_on(before, output, reads.last().1);
        assert forall|i: int| 0 <= i < told.len() implies !is_end(#[trigger] told[i]) && (
        percent_in(told[i]) matches Some(p) ==> p <= r.percent) by {
            if i < earlier.len() {
                assert(told[i] == earlier[i]);
            } else {
                assert(told[i] == step.messages[i - earlier.len()]);
            }
        }
        assert forall|i: int, j: int|
            #![trigger told[i], told[j]]
            0 <= i <= j < told.len() && percent_in(told[i]) is Some && percent_in(
                told[j],
            ) is Some implies percent_in(told[i])->0 <= percent_in(told[j])->0 by {
            if i < earlier.len() {
                assert(told[i] == earlier[i]);
            } else {
                assert(told[i] == step.messages[i - earlier.len()]);
            }
            if j < earlier.len() {
                assert(told[j] == earlier[j]);
            } else {
                assert(told[j] == step.messages[j - earlier.len()]);
            }
        }
    }
}

/// An operation is told of in order: first its popup is shown, at the very end, and not
/// before, its end is told.
pub proof fn operation_is_told_in_order(
    title: Seq<char>,
    reads: Seq<(Seq<u8>, u64)>,
    status: i32,
)
    ensures
        ({
            let (r, told) = managed_run(runner::fresh(), whole(title, reads, status));
            &&& told.len() >= 2
            &&& told[0] == UiMessageView::ShowProgressPopup(title)
            &&& told.last() == runner::ended(r, runner::is_success(status))
            &&& forall|i: int| 0 <= i < told.len() - 1 ==> !is_end(#[trigger] told[i])
        }),
{
    let events = started(title, reads);
    let all = whole(title, reads, status);
    assert(all.drop_last() =~= events);
    started_run(title, reads);
    let (r, earlier) = managed_run(runner::fresh(), events);
    let told = managed_run(runner::fresh(), all).1;
    assert(told =~= earlier + runner::finished(r).push(
        runner::ended(r, runner::is_success(status)),
    ));
    assert forall|i: int| 0 <= i < told.len() - 1 implies !is_end(#[trigger] told[i]) by {
        if i < earlier.len() {
            assert(told[i] == earlier[i]);
        }
    }
}

/// What is told of one piece of output about the move to the terminal: it comes last, and
/// only where the operation moves. Once it has moved, neither it nor a percentage is told.
proof fn step_moves_once(r: ReaderView, output: Seq<char>, waited: u64)
    ensures
        ({
            let (after, step) = runner::fed(r, output, waited);
            let told = step.messages;
            &&& r.escalated ==> after.escalated
            &&& forall|i: int|
                0 <= i < told.len() && #[trigger] told[i] is ShowTerminalFallback
                    ==> after.escalated && !r.escalated && i == told.len() - 1
            &&& r.escalated ==> forall|i: int|
                0 <= i < told.len() ==> percent_in(#[trigger] told[i]) is None
        }),
{
    let ls = text::lines(terminal::displayed(output));
    runner::stages_never_fall(ls, r.percent);
}

/// Of what is told until a command ends, the move to the terminal comes once at most, and
/// no percentage behind it.
proof fn started_moves_once(title: Seq<char>, reads: Seq<(Seq<u8>, u64)>)
    ensures
        ({
            let (r, told) = managed_run(runner::fresh(), started(title, reads));
            &&& forall|i: int|
                0 <= i < told.len() && #[trigger] told[i] is ShowTerminalFallback ==> r.escalated
            &&& forall|i: int, j: int|
                #![trigger told[i], told[j]]
                0 <= i < j < told.len() && told[i] is ShowTerminalFallback
                    ==> !(told[j] is ShowTerminalFallback) && percent_in(told[j]) is None
        }),
    decreases reads.len(),
{
    let events = started(title, reads);
    let (r, told) = managed_run(runner::fresh(), events);
    let (before, earlier) = managed_run(runner::fresh(), events.drop_last());
    let (after, step) = managed_step(before, events.last());
    if reads.len() == 0 {
        assert(events.drop_last() =~= Seq::empty());
        assert(told =~= seq![UiMessageView::ShowProgressPopup(title)]);
    } else {
        assert(events.drop_last() =~= started(title, reads.drop_last()));
        started_moves_once(title, reads.drop_last());
        step_moves_once(before, bytes::lossy_text(reads.last().0), reads.last().1);
        assert forall|i: int|
            0 <= i < told.len() && #[trigger] told[i] is ShowTerminalFallback implies r.escalated by {
            if i < earlier.len() {
                assert(told[i] == earlier[i]);
            } else {
                assert(told[i] == step.messages[i - earlier.len()]);
            }
        }
        assert forall|i: int, j: int|
            #![trigger told[i], told[j]]
            0 <= i < j < told.len() && told[i] is ShowTerminalFallback implies !(
        told[j] is ShowTerminalFallback) && percent_in(told[j]) is None by {
            if i < earlier.len() {
                assert(told[i] == earlier[i]);
            } else {
                assert(told[i] == step.messages[i - earlier.len()]);
            }
            if j < earlier.len() {
                assert(told[j] == earlier[j]);
            } else {
                assert(told[j] == step.messages[j - earlier.len()]);
            }
        }
    }
}

/// The move to the terminal is told at most once, and behind it no percentage: two places
/// that tell of it are the same place.
pub proof fn move_is_told_once(
    title: Seq<char>,
    reads: Seq<(Seq<u8>, u64)>,
    status: i32,
    i: int,
    j: int,
)
    requires
        0 <= i < managed_run(runner::fresh(), whole(title, reads, status)).1.len(),
        0 <= j < managed_run(runner::fresh(), whole(title, reads, status)).1.len(),
        managed_run(
            runner::fresh(),
            whole(title, reads, status),
        ).1[i] is ShowTerminalFallback,
    ensures
        managed_run(
            runner::fresh(),
            whole(title, reads, status),
        ).1[j] is ShowTerminalFallback ==> i == j,
        i < j ==> percent_in(
            managed_run(runner::fresh(), whole(title, reads, status)).1[j],
        ) is None,
{
    let events = started(title, reads);
    let all = whole(title, reads, status);
    assert(all.drop_last() =~= events);
    assert(all.last() == EventView::Ended(status));
    started_moves_once(title, reads);
    let (r, earlier) = managed_run(runner::fresh(), events);
    let last = managed_step(r, EventView::Ended(status)).1.messages;
    let told = managed_run(runner::fresh(), all).1;
    assert(told =~= earlier + last);
    assert(told[i] == earlier[i]);
    if j < earlier.len() {
        assert(told[j] == earlier[j]);
    } else {
        assert(told[j] == last[j - earlier.len()]);
    }
}

/// All that a command printed, piece by piece, where anything of a piece shows.
pub open spec fn all_printed(reads: Seq<(Seq<u8>, u64)>) -> Seq<UiMessageView>
    decreases reads.len(),
{
    if reads.len() == 0 {
        Seq::empty()
    } else {
        all_printed(reads.drop_last()) + runner::printed(reads.last().0)
    }
}

/// A command in the terminal is told of in order: first the terminal is shown, then comes
/// what it printed, in the order in which it did, and at last how it ended.
pub proof fn terminal_is_told_in_order(
    title: Seq<char>,
    reads: Seq<(Seq<u8>, u64)>,
    status: i32,
)
    ensures
        terminal_run(whole(title, reads, status)) == seq![UiMessageView::ShowTerminal(title)]
            + all_printed(reads) + seq![UiMessageView::TerminalDone(runner::is_success(status))],
{
    let all = whole(title, reads, status);
    assert(all.drop_last() =~= started(title, reads));
    terminal_started(title, reads);
}

/// What is told of a command in the terminal until it ends.
proof fn terminal_started(title: Seq<char>, reads: Seq<(Seq<u8>, u64)>)
    ensures
        terminal_run(started(title, reads)) == seq![UiMessageView::ShowTerminal(title)]
            + all_printed(reads),
    decreases reads.len(),
{
    let events = started(title, reads);
    let shown = seq![UiMessageView::ShowTerminal(title)];
    if reads.len() == 0 {
        assert(events.drop_last() =~= Seq::empty());
        assert(terminal_run(events.drop_last()) =~= Seq::empty());
        assert(terminal_run(events) =~= shown + all_printed(reads));
    } else {
        assert(events.drop_last() =~= started(title, reads.drop_last()));
        terminal_started(title, reads.drop_last());
        assert(shown + all_printed(reads) =~= shown + all_printed(reads.drop_last())
            + runner::printed(reads.last().0));
    }
}

/// What a message is told for each event that is not output, of an operation that shows
/// its progress and of a command in the terminal.
pub proof fn events_have_their_messages(
    r: ReaderView,
    title: Seq<char>,
    error: Seq<char>,
    status: i32,
)
    requires
        0 <= status,
    ensures
        managed_step(r, EventView::Asked(title)).1.messages == seq![
            UiMessageView::ShowProgressPopup(title),
        ],
        managed_step(r, EventView::Failed(error)).1.messages == seq![
            UiMessageView::OperationProgress(0, "Error: "@ + error),
            UiMessageView::OperationDone(false),
        ],
        managed_step(r, EventView::Ended(status)).1.messages.last() == (if r.escalated {
            UiMessageView::TerminalDone(status % 128 == 0 && (status / 256) % 256 == 0)
        } else {
            UiMessageView::OperationDone(status % 128 == 0 && (status / 256) % 256 == 0)
        }),
        r.pending.len() == 0 ==> managed_step(r, EventView::Ended(status)).1.messages.len() == 1,
        r.pending.len() > 0 ==> managed_step(r, EventView::Ended(status)).1.messages.len() == 2
            && managed_step(r, EventView::Ended(status)).1.messages[0]
            == UiMessageView::ProgressOutput(runner::recent(r.pending)),
        terminal_step(EventView::Asked(title)) == seq![UiMessageView::ShowTerminal(title)],
        terminal_step(EventView::Failed(error)) == seq![
            UiMessageView::TerminalOutput("Error: "@ + error + "\n"@),
            UiMessageView::TerminalDone(false),
        ],
        terminal_step(EventView::Ended(status)) == seq![
            UiMessageView::TerminalDone(status % 128 == 0 && (status / 256) % 256 == 0),
        ],
{
    runner::codes_say_how_it_went(status);
}

/// Output that shows anything goes to the terminal as it is displayed, and to the reader of
/// an operation in the same way.
pub proof fn output_is_displayed(r: ReaderView, output: Seq<u8>, waited: u64)
    ensures
        ({
            let t = terminal::displayed(bytes::lossy_text(output));
            &&& t.len() > 0 ==> terminal_step(EventView::Read(output, waited)) == seq![
                UiMessageView::TerminalOutput(t),
            ]
            &&& t.len() == 0 ==> terminal_step(EventView::Read(output, waited)).len() == 0
        }),
        managed_step(r, EventView::Read(output, waited)) == runner::fed(
            r,
            bytes::lossy_text(output),
            waited,
        ),
{
}

} // verus!
