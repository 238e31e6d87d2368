use xpm::runner::Reader;
use xpm::session::{in_terminal, managed, Event};
use xpm::ui::UiMessage;

fn shown(messages: &[UiMessage]) -> Vec<String> {
    messages.iter().map(|m| format!("{:?}", m)).collect()
}

fn read(output: &str, waited: u64) -> Event {
    Event::Read(output.as_bytes().to_vec(), waited)
}

fn run(events: &[Event]) -> Vec<String> {
    let mut reader = Reader::new();
    events.iter().flat_map(|e| shown(&managed(&mut reader, e).messages)).collect()
}

#[test]
fn operations_are_told_from_start_to_end() {
    let told = run(&[
        Event::Asked("Installing vim".to_string()),
        read("resolving dependencies...\n", 0),
        read("\x1b[0m", 0),
        read("(1/1) installing vim\n", 200),
        Event::Ended(0),
    ]);
    assert_eq!(
        told,
        vec![
            "ShowProgressPopup(\"Installing vim\")",
            "OperationProgress(10, \"resolving dependencies...\")",
            "ProgressOutput(\"resolving dependencies...\\n(1/1) installing vim\\n\")",
            "OperationProgress(85, \"(1/1) installing vim\")",
            "ProgressOutput(\"resolving dependencies...\\n(1/1) installing vim\\n\")",
            "OperationDone(true)",
        ]
    );
}

#[test]
fn operations_may_fail() {
    assert_eq!(
        run(&[Event::Asked("T".to_string()), Event::Failed("openpty failed".to_string())]),
        vec![
            "ShowProgressPopup(\"T\")",
            "OperationProgress(0, \"Error: openpty failed\")",
            "OperationDone(false)",
        ]
    );
    assert_eq!(
        run(&[Event::Asked("T".to_string()), Event::Ended(256)]),
        vec!["ShowProgressPopup(\"T\")", "OperationDone(false)"]
    );
    assert_eq!(
        run(&[Event::Asked("T".to_string()), Event::Ended(9)]).last().unwrap(),
        "OperationDone(false)"
    );
}

#[test]
fn progress_does_not_fall() {
    let lines = [
        "running post-transaction hooks\n",
        "resolving dependencies\n",
        "(1/4) installing a\n(4/4) installing b\n",
        "downloading x\n",
        "updating grub\n",
        "mkinitcpio\n",
    ];
    for i in 0..lines.len() {
        for j in 0..lines.len() {
            for k in 0..lines.len() {
                let mut reader = Reader::new();
                let mut last = 0;
                for line in [lines[i], lines[j], lines[k]] {
                    for message in managed(&mut reader, &read(line, 0)).messages {
                        if let UiMessage::OperationProgress(p, _) = message {
                            assert!(p >= last);
                            last = p;
                        }
                    }
                }
            }
        }
    }
}

#[test]
fn operations_move_to_the_terminal_once() {
    let conflict = "error: failed to commit transaction (conflicting files)\n";
    let told = run(&[
        Event::Asked("T".to_string()),
        read("resolving dependencies\n", 0),
        read(conflict, 0),
        read(conflict, 0),
        read("(1/1) installing vim\n", 0),
        Event::Ended(256),
    ]);
    let moves: Vec<usize> =
        (0..told.len()).filter(|i| told[*i].starts_with("ShowTerminalFallback")).collect();
    assert_eq!(moves.len(), 1, "{:?}", told);
    assert!(told[..moves[0]].iter().any(|m| m.starts_with("OperationProgress")));
    assert!(!told[moves[0]..].iter().any(|m| m.starts_with("OperationProgress")));
    assert_eq!(told.last().unwrap(), "TerminalDone(false)");
}

#[test]
fn terminal_commands_are_told_in_order() {
    let events = [
        Event::Asked("Cleaning".to_string()),
        read("one\n", 0),
        read("\x1b[0m", 0),
        read("two", 0),
        Event::Ended(0),
    ];
    let told: Vec<String> = events.iter().flat_map(|e| shown(&in_terminal(e))).collect();
    assert_eq!(
        told,
        vec![
            "ShowTerminal(\"Cleaning\")",
            "TerminalOutput(\"one\")",
            "TerminalOutput(\"two\")",
            "TerminalDone(true)",
        ]
    );
    assert_eq!(
        shown(&in_terminal(&Event::Failed("no".to_string()))),
        vec!["TerminalOutput(\"Error: no\\n\")", "TerminalDone(false)"]
    );
    assert_eq!(shown(&in_terminal(&Event::Ended(256))), vec!["TerminalDone(false)"]);
}
