//! The check for updates: what the window is told on the way, and when it is given up.
use crate::bytes;
use crate::text;
use crate::ui;
use crate::ui::{UiMessage, UiMessageView};
use vstd::prelude::*;
use vstd::string::*;

verus! {

broadcast use vstd::seq_lib::group_seq_properties;

/// How syncing the databases of pacman ended.
#[derive(Debug)]
pub enum Outcome {
    /// The command was successful.
    Synced,
    /// The command failed: what it wrote to its error output, and its exit code where it
    /// has one.
    Failed(Vec<u8>, Option<i32>),
    /// The command could not be run.
    NotRun,
}

/// A command that failed because the user did not authenticate: its error output or its
/// exit code says so.
pub open spec fn is_refusal(errors: Seq<char>, code: Option<i32>) -> bool {
    ||| text::has(errors, "cancelled"@)
    ||| text::has(errors, "dismissed"@)
    ||| code == Some(126i32)
    ||| code == Some(127i32)
}

/// Whether a command failed because the user did not authenticate.
pub fn refused(errors: &[char], code: Option<i32>) -> (r: bool)
    ensures
        r == is_refusal(errors@, code),
{
    text::mentions(errors, "cancelled") || text::mentions(errors, "dismissed") || (match code {
        Some(c) => c == 126 || c == 127,
        None => false,
    })
}

/// Whether the user did not authenticate.
pub open spec fn is_cancelled(outcome: Outcome) -> bool {
    match outcome {
        Outcome::Failed(b, code) => is_refusal(bytes::lossy_text(b@), code),
        _ => false,
    }
}

/// A value of the progress bar, with the same text beside it and in the status line.
pub open spec fn step(progress: i32, shown: Seq<char>) -> Seq<UiMessageView> {
    seq![
        UiMessageView::SetProgress(progress),
        UiMessageView::SetProgressText(shown),
        UiMessageView::SetStatus(shown),
    ]
}

/// A value of the progress bar, with the same text beside it and in the status line.
fn tell(v: &mut Vec<UiMessage>, progress: i32, shown: &str)
    ensures
        ui::messages(final(v)@) == ui::messages(old(v)@) + step(progress, shown@),
{
    let ghost before = ui::messages(v@);
    ui::send(v, UiMessage::SetProgress(progress));
    ui::send(v, UiMessage::SetProgressText(shown.to_owned()));
    ui::send(v, UiMessage::SetStatus(shown.to_owned()));
    assert(ui::messages(v@) =~= before + step(progress, shown@));
}

/// No messages.
fn nothing() -> (r: Vec<UiMessage>)
    ensures
        ui::messages(r@) == Seq::<UiMessageView>::empty(),
{
    let r: Vec<UiMessage> = Vec::new();
    assert(ui::messages(r@) =~= Seq::<UiMessageView>::empty());
    r
}

/// The start of the check, before the databases of pacman are synced.
pub fn begin() -> (r: Vec<UiMessage>)
    ensures
        ui::messages(r@) == seq![UiMessageView::SetBusy(true)] + step(
            5,
            "Syncing pacman databases..."@,
        ),
{
    let mut r = nothing();
    ui::send(&mut r, UiMessage::SetBusy(true));
    tell(&mut r, 5, "Syncing pacman databases...");
    assert(ui::messages(r@) =~= seq![UiMessageView::SetBusy(true)] + step(
        5,
        "Syncing pacman databases..."@,
    ));
    r
}

/// What the window is told when the databases of pacman have been synced or not. Without
/// authentication the check is given up; otherwise it goes on with Flatpak.
pub open spec fn synced(outcome: Outcome) -> Seq<UiMessageView> {
    if is_cancelled(outcome) {
        seq![
            UiMessageView::SetStatus("Authentication cancelled"@),
            UiMessageView::SetProgress(0),
            UiMessageView::SetProgressText(""@),
            UiMessageView::SetBusy(false),
        ]
    } else {
        step(
            25,
            match outcome {
                Outcome::Synced => "Pacman synced. Checking Flatpak..."@,
                Outcome::Failed(_, _) => "Pacman sync had issues, continuing..."@,
                Outcome::NotRun => "Pacman sync unavailable, continuing..."@,
            },
        ) + step(50, "Refreshing Flatpak metadata..."@)
    }
}

/// Whether the user did not authenticate.
fn cancelled(outcome: &Outcome) -> (r: bool)
    ensures
        r == is_cancelled(*outcome),
{
    match outcome {
        Outcome::Failed(b, code) => {
            let errors = bytes::shown(b.as_slice());
            refused(errors.as_slice(), *code)
        },
        _ => false,
    }
}

/// What the window is told when the databases of pacman have been synced or not, and
/// whether the check goes on.
pub fn after_pacman(outcome: &Outcome) -> (r: (Vec<UiMessage>, bool))
    ensures
        ui::messages(r.0@) == synced(*outcome),
        r.1 == !is_cancelled(*outcome),
{
    let mut r = nothing();
    if cancelled(outcome) {
        ui::send(&mut r, UiMessage::SetStatus("Authentication cancelled".to_owned()));
        ui::send(&mut r, UiMessage::SetProgress(0));
        ui::send(&mut r, UiMessage::SetProgressText("".to_owned()));
        ui::send(&mut r, UiMessage::SetBusy(false));
        assert(ui::messages(r@) =~= synced(*outcome));
        return (r, false);
    }
    match outcome {
        Outcome::Synced => tell(&mut r, 25, "Pacman synced. Checking Flatpak..."),
        Outcome::Failed(_, _) => tell(&mut r, 25, "Pacman sync had issues, continuing..."),
        Outcome::NotRun => tell(&mut r, 25, "Pacman sync unavailable, continuing..."),
    }
    tell(&mut r, 50, "Refreshing Flatpak metadata...");
    assert(ui::messages(r@) =~= synced(*outcome));
    (r, true)
}

/// What the window is told before the packages are loaded anew.
pub fn before_reload() -> (r: Vec<UiMessage>)
    ensures
        ui::messages(r@) == seq![
            UiMessageView::SetProgress(75),
            UiMessageView::SetProgressText("Reloading packages..."@),
            UiMessageView::SetStatus("Checking for updates..."@),
            UiMessageView::SetLoading(true),
        ],
{
    let mut r = nothing();
    ui::send(&mut r, UiMessage::SetProgress(75));
    ui::send(&mut r, UiMessage::SetProgressText("Reloading packages...".to_owned()));
    ui::send(&mut r, UiMessage::SetStatus("Checking for updates...".to_owned()));
    ui::send(&mut r, UiMessage::SetLoading(true));
    assert(ui::messages(r@) =~= seq![
        UiMessageView::SetProgress(75),
        UiMessageView::SetProgressText("Reloading packages..."@),
        UiMessageView::SetStatus("Checking for updates..."@),
        UiMessageView::SetLoading(true),
    ]);
    r
}

/// What the window is told at the end of the check.
pub open spec fn finished(outcome: Outcome) -> Seq<UiMessageView> {
    seq![
        UiMessageView::SetProgress(100),
        UiMessageView::SetProgressText("Complete"@),
        UiMessageView::SetProgress(0),
        UiMessageView::SetProgressText(""@),
        UiMessageView::SetBusy(false),
        UiMessageView::SetStatus(
            if outcome is Synced {
                "Update check complete"@
            } else {
                "Update check complete (pacman sync had issues)"@
            },
        ),
    ]
}

/// What the window is told at the end of the check.
pub fn finish(outcome: &Outcome) -> (r: Vec<UiMessage>)
    ensures
        ui::messages(r@) == finished(*outcome),
{
    let mut r = nothing();
    ui::send(&mut r, UiMessage::SetProgress(100));
    ui::send(&mut r, UiMessage::SetProgressText("Complete".to_owned()));
    ui::send(&mut r, UiMessage::SetProgress(0));
    ui::send(&mut r, UiMessage::SetProgressText("".to_owned()));
    ui::send(&mut r, UiMessage::SetBusy(false));
    let status = match outcome {
        Outcome::Synced => "Update check complete".to_owned(),
        _ => "Update check complete (pacman sync had issues)".to_owned(),
    };
    ui::send(&mut r, UiMessage::SetStatus(status));
    assert(ui::messages(r@) =~= finished(*outcome));
    r
}

/// However the check ends, given up or not, the window is told that it is no longer busy
/// and that the progress bar is empty.
pub proof fn check_always_ends(outcome: Outcome)
    ensures
        ({
            let last = if is_cancelled(outcome) {
                synced(outcome)
            } else {
                finished(outcome)
            };
            last.contains(UiMessageView::SetBusy(false)) && last.contains(
                UiMessageView::SetProgress(0),
            ) && last.contains(UiMessageView::SetProgressText(""@))
        }),
{
    if is_cancelled(outcome) {
        let s = synced(outcome);
        assert(s[1] == UiMessageView::SetProgress(0));
        assert(s[2] == UiMessageView::SetProgressText(""@));
        assert(s[3] == UiMessageView::SetBusy(false));
    } else {
        let s = finished(outcome);
        assert(s[2] == UiMessageView::SetProgress(0));
        assert(s[3] == UiMessageView::SetProgressText(""@));
        assert(s[4] == UiMessageView::SetBusy(false));
    }
}

/// A command was refused exactly where it says that it was cancelled or dismissed, or where
/// it ended with one of the two codes of a refused authentication.
pub proof fn refusals_are_told(errors: Seq<char>, code: Option<i32>)
    ensures
        is_refusal(errors, code) <==> (code == Some(126i32) || code == Some(127i32) || (exists|
            a: Seq<char>,
            b: Seq<char>,
        |
            errors == #[trigger] (a + "cancelled"@ + b)) || (exists|a: Seq<char>, b: Seq<char>|
            errors == #[trigger] (a + "dismissed"@ + b))),
{
    text::has_means_made_of(errors, "cancelled"@);
    text::has_means_made_of(errors, "dismissed"@);
}

/// A check goes on unless the user refused to authenticate: what failed in another way, or
/// could not be run, is told and passed over.
pub proof fn only_refusals_end_the_check(outcome: Outcome)
    ensures
        !is_cancelled(Outcome::Synced),
        !is_cancelled(Outcome::NotRun),
        outcome matches Outcome::Failed(b, c) ==> (is_cancelled(outcome) <==> is_refusal(
            bytes::lossy_text(b@),
            c,
        )),
        is_cancelled(outcome) ==> synced(outcome) == seq![
            UiMessageView::SetStatus("Authentication cancelled"@),
            UiMessageView::SetProgress(0),
            UiMessageView::SetProgressText(""@),
            UiMessageView::SetBusy(false),
        ],
        !is_cancelled(outcome) ==> {
            let shown = match outcome {
                Outcome::Synced => "Pacman synced. Checking Flatpak..."@,
                Outcome::Failed(_, _) => "Pacman sync had issues, continuing..."@,
                Outcome::NotRun => "Pacman sync unavailable, continuing..."@,
            };
            synced(outcome) == seq![
                UiMessageView::SetProgress(25),
                UiMessageView::SetProgressText(shown),
                UiMessageView::SetStatus(shown),
                UiMessageView::SetProgress(50),
                UiMessageView::SetProgressText("Refreshing Flatpak metadata..."@),
                UiMessageView::SetStatus("Refreshing Flatpak metadata..."@),
            ]
        },
{
    if !is_cancelled(outcome) {
        let shown = match outcome {
            Outcome::Synced => "Pacman synced. Checking Flatpak..."@,
            Outcome::Failed(_, _) => "Pacman sync had issues, continuing..."@,
            Outcome::NotRun => "Pacman sync unavailable, continuing..."@,
        };
        assert(synced(outcome) =~= seq![
            UiMessageView::SetProgress(25),
            UiMessageView::SetProgressText(shown),
            UiMessageView::SetStatus(shown),
            UiMessageView::SetProgress(50),
            UiMessageView::SetProgressText("Refreshing Flatpak metadata..."@),
            UiMessageView::SetStatus("Refreshing Flatpak metadata..."@),
        ]);
    }
}

/// A check ends at 100, with the progress taken back, nothing busy and its outcome told.
pub proof fn ends_are_told(outcome: Outcome)
    ensures
        ({
            let m = finished(outcome);
            &&& m.len() == 6
            &&& m[0] == UiMessageView::SetProgress(100)
            &&& m[1] == UiMessageView::SetProgressText("Complete"@)
            &&& m[2] == UiMessageView::SetProgress(0)
            &&& m[3] == UiMessageView::SetProgressText(""@)
            &&& m[4] == UiMessageView::SetBusy(false)
            &&& outcome is Synced ==> m[5] == UiMessageView::SetStatus("Update check complete"@)
            &&& !(outcome is Synced) ==> m[5] == UiMessageView::SetStatus(
                "Update check complete (pacman sync had issues)"@,
            )
        }),
{
}

} // verus!
