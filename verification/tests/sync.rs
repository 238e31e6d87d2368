use xpm::sync::{after_pacman, before_reload, begin, finish, refused, Outcome};
use xpm::text::chars_of;
use xpm::ui::UiMessage;

fn shown(messages: &[UiMessage]) -> Vec<String> {
    messages.iter().map(|m| format!("{:?}", m)).collect()
}

#[test]
fn a_check_is_told_step_by_step() {
    assert_eq!(
        shown(&begin()),
        vec![
            "SetBusy(true)",
            "SetProgress(5)",
            "SetProgressText(\"Syncing pacman databases...\")",
            "SetStatus(\"Syncing pacman databases...\")",
        ]
    );
    let (messages, goes_on) = after_pacman(&Outcome::Synced);
    assert!(goes_on);
    assert_eq!(
        shown(&messages),
        vec![
            "SetProgress(25)",
            "SetProgressText(\"Pacman synced. Checking Flatpak...\")",
            "SetStatus(\"Pacman synced. Checking Flatpak...\")",
            "SetProgress(50)",
            "SetProgressText(\"Refreshing Flatpak metadata...\")",
            "SetStatus(\"Refreshing Flatpak metadata...\")",
        ]
    );
    assert_eq!(
        shown(&before_reload()),
        vec![
            "SetProgress(75)",
            "SetProgressText(\"Reloading packages...\")",
            "SetStatus(\"Checking for updates...\")",
            "SetLoading(true)",
        ]
    );
    assert_eq!(
        shown(&finish(&Outcome::Synced)),
        vec![
            "SetProgress(100)",
            "SetProgressText(\"Complete\")",
            "SetProgress(0)",
            "SetProgressText(\"\")",
            "SetBusy(false)",
            "SetStatus(\"Update check complete\")",
        ]
    );
}

#[test]
fn without_authentication_the_check_is_given_up() {
    let given_up = vec![
        "SetStatus(\"Authentication cancelled\")",
        "SetProgress(0)",
        "SetProgressText(\"\")",
        "SetBusy(false)",
    ];
    for outcome in [
        Outcome::Failed(b"Request dismissed".to_vec(), Some(1)),
        Outcome::Failed(b"was cancelled \xff".to_vec(), None),
        Outcome::Failed(Vec::new(), Some(126)),
        Outcome::Failed(Vec::new(), Some(127)),
    ] {
        let (messages, goes_on) = after_pacman(&outcome);
        assert!(!goes_on);
        assert_eq!(shown(&messages), given_up);
    }
}

#[test]
fn other_failures_do_not_stop_the_check() {
    for (outcome, text) in [
        (Outcome::Failed(b"no network".to_vec(), Some(1)), "Pacman sync had issues, continuing..."),
        (Outcome::NotRun, "Pacman sync unavailable, continuing..."),
    ] {
        let (messages, goes_on) = after_pacman(&outcome);
        assert!(goes_on);
        assert_eq!(shown(&messages)[1], format!("SetProgressText({:?})", text));
        assert_eq!(
            shown(&finish(&outcome)).last().map(|s| s.as_str()),
            Some("SetStatus(\"Update check complete (pacman sync had issues)\")")
        );
    }
}

#[test]
fn the_window_is_not_busy_after_a_check() {
    for outcome in [Outcome::Synced, Outcome::NotRun, Outcome::Failed(Vec::new(), Some(126))] {
        let mut all = begin();
        let (messages, goes_on) = after_pacman(&outcome);
        all.extend(messages);
        if goes_on {
            all.extend(before_reload());
            all.extend(finish(&outcome));
        }
        let busy = all.iter().filter_map(|m| match m {
            UiMessage::SetBusy(b) => Some(*b),
            _ => None,
        });
        assert_eq!(busy.last(), Some(false));
    }
}

#[test]
fn refusals_are_recognized() {
    assert!(refused(&chars_of("Request cancelled."), Some(1)));
    assert!(refused(&chars_of("dismissed"), None));
    assert!(refused(&[], Some(126)));
    assert!(refused(&[], Some(127)));
    assert!(!refused(&chars_of("Cancelled"), Some(125)));
    assert!(!refused(&[], None));
}
