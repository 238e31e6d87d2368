use xpm::runner::{parse_progress_fraction, succeeded, terminal_output, Reader, Step};
use xpm::text::{chars_of, text_of};
use xpm::ui::UiMessage;

fn shown(messages: &[UiMessage]) -> Vec<String> {
    messages.iter().map(|m| format!("{:?}", m)).collect()
}

fn step(r: &mut Reader, output: &str) -> Step {
    r.feed(output, 0)
}

#[test]
fn counts_give_a_place_in_a_range() {
    let place = |s: &str| parse_progress_fraction(&chars_of(s), 20, 50);
    assert_eq!(place("(1/2) installing"), Some(35));
    assert_eq!(place("( 3/ 3) installing"), Some(50));
    assert_eq!(place("(0/7)"), Some(20));
    assert_eq!(place("(1/0)"), None);
    assert_eq!(place("(1/-2)"), None);
    assert_eq!(place("(1/2/3)"), None);
    assert_eq!(place("(a/b)"), None);
    assert_eq!(place("1/2"), None);
    assert_eq!(place("(1/2"), None);
    assert_eq!(place(")1/2("), None);
    assert_eq!(place("(-1/3)"), Some(10));
    assert_eq!(place("(+1/3)"), Some(30));
}

#[test]
fn places_are_those_of_doubles() {
    let mut x: u64 = 0x2545f4914f6cdd1d;
    let mut next = move || {
        x ^= x << 13;
        x ^= x >> 7;
        x ^= x << 17;
        x
    };
    for i in 0..20000u32 {
        let done = (next() as i32) >> (i % 31);
        let total = ((next() as i32) >> ((i / 5) % 31)) & 0x7fffffff;
        for (start, end) in [(20, 50), (60, 85), (85, 60), (-5, 1000)] {
            let line = format!("({}/{})", done, total);
            let wanted = if total > 0 {
                let fraction = done as f64 / total as f64;
                let moved = ((end - start) as f64 * fraction) as i32;
                Some(i32::wrapping_add(start, moved))
            } else {
                None
            };
            assert_eq!(parse_progress_fraction(&chars_of(&line), start, end), wanted, "{}", line);
        }
    }
}

#[test]
fn wait_statuses_are_read() {
    assert!(succeeded(0));
    assert!(!succeeded(1 << 8));
    assert!(!succeeded(127 << 8));
    assert!(!succeeded(15));
    assert!(!succeeded(9 | 0x80));
    for status in 0..0x10000 {
        assert_eq!(
            succeeded(status),
            libc::WIFEXITED(status) && libc::WEXITSTATUS(status) == 0
        );
    }
}

#[test]
fn stages_move_the_operation_on() {
    let mut r = Reader::new();
    let s = step(&mut r, "resolving dependencies...\nlooking for conflicting packages...");
    assert_eq!(
        shown(&s.messages),
        vec![
            "OperationProgress(10, \"resolving dependencies...\")",
            "OperationProgress(15, \"looking for conflicting packages...\")",
        ]
    );
    assert!(!s.confirm);
    assert!(!s.flushed);
    let stages = [
        ("(1/2) downloading a", 35),
        ("downloading b", 35),
        ("checking keyring", 52),
        ("checking package integrity", 55),
        ("loading package files", 58),
        ("(1/5) installing a", 65),
        ("upgrading b", 72),
        (":: Running post-transaction hooks...", 88),
        ("(1/3) Arming ConditionPathExists", 90),
        ("mkinitcpio", 92),
        ("Updating GRUB", 95),
        ("Updating the info directory file", 97),
    ];
    let mut last = 15;
    for (line, percent) in stages {
        let s = step(&mut r, line);
        if percent > last || (percent == last && last >= 88) {
            assert_eq!(shown(&s.messages), vec![format!("OperationProgress({}, {:?})", percent, line)]);
        } else {
            assert!(s.messages.is_empty(), "{}", line);
        }
        last = percent;
        assert_eq!(r.percent, last);
    }
}

#[test]
fn the_percentage_never_falls_back() {
    let mut r = Reader::new();
    step(&mut r, "running post-transaction hooks");
    assert_eq!(r.percent, 88);
    let s = step(&mut r, "resolving dependencies");
    assert!(s.messages.is_empty());
    assert_eq!(r.percent, 88);
    let s = step(&mut r, "(2/4) other hook");
    assert_eq!(shown(&s.messages), vec!["OperationProgress(88, \"(2/4) other hook\")"]);
}

#[test]
fn questions_are_answered_or_asked() {
    let mut r = Reader::new();
    let s = step(&mut r, ":: Proceed with installation? [Y/n] ");
    assert!(s.confirm);
    assert_eq!(shown(&s.messages), vec!["ProgressHidePrompt"]);
    let s = step(&mut r, "Do you want to remove these packages? [y/N]");
    assert!(s.confirm);
    let s = step(&mut r, "There are 2 providers\n\n  Enter a number (default=1): \n \n");
    assert!(!s.confirm);
    assert_eq!(shown(&s.messages), vec!["ProgressPrompt(\"Enter a number (default=1):\")"]);
    let s = step(&mut r, "Something else? [y/N]");
    assert!(!s.confirm);
    assert_eq!(shown(&s.messages), vec!["ProgressPrompt(\"Something else? [y/N]\")"]);
}

#[test]
fn a_conflict_moves_to_the_terminal() {
    let mut r = Reader::new();
    step(&mut r, "first line\n");
    let s = step(&mut r, "error: failed to commit transaction (Conflicting files)");
    assert!(r.escalated);
    assert_eq!(
        shown(&s.messages),
        vec!["ShowTerminalFallback(\"first lineerror: failed to commit transaction (Conflicting files)\")"]
    );
    let s = step(&mut r, "resolving dependencies\n");
    assert_eq!(shown(&s.messages), vec!["TerminalOutput(\"resolving dependencies\")"]);
    assert!(matches!(r.done(true), UiMessage::TerminalDone(true)));
    assert!(matches!(Reader::new().done(true), UiMessage::OperationDone(true)));
    assert!(matches!(Reader::new().done(false), UiMessage::OperationDone(false)));
}

#[test]
fn the_log_is_shown_from_time_to_time() {
    let mut r = Reader::new();
    let s = r.feed("one\n########## \n\n two \n", 149);
    assert!(s.messages.is_empty());
    assert_eq!(text_of(&r.pending), "one\ntwo\n");
    let s = r.feed("three", 150);
    assert!(s.flushed);
    assert_eq!(shown(&s.messages), vec!["ProgressOutput(\"one\\ntwo\\nthree\\n\")"]);
    assert_eq!(shown(&r.finish()), vec!["ProgressOutput(\"one\\ntwo\\nthree\\n\")"]);
    assert!(Reader::new().finish().is_empty());
}

#[test]
fn the_log_keeps_80_lines() {
    let mut r = Reader::new();
    for i in 0..100 {
        r.feed(&format!("line {}\n", i), 0);
    }
    r.feed("end", 1000);
    let log = text_of(&r.pending);
    assert_eq!(log.lines().count(), 80);
    assert!(log.starts_with("line 21\n"));
    assert!(log.ends_with("end\n"));
}

#[test]
fn output_is_gathered_up_to_a_limit() {
    let mut r = Reader::new();
    let piece = "x".repeat(40000);
    r.feed(&piece, 0);
    r.feed(&piece, 0);
    assert_eq!(r.gathered.len(), 80000);
    r.feed(&piece, 0);
    assert_eq!(r.gathered.len(), 80000);
}

#[test]
fn bytes_that_are_no_text_are_replaced() {
    let mut r = Reader::new();
    r.read(b"caf\xc3\xa9 \xff\n", 0);
    assert_eq!(text_of(&r.gathered), "café \u{fffd}");
    assert!(r.read(b"", 1000).messages.is_empty());
    match terminal_output(b"\x1b[1mab\xff") {
        Some(UiMessage::TerminalOutput(s)) => assert_eq!(s, "ab\u{fffd}"),
        other => panic!("{:?}", other),
    }
    assert!(terminal_output(b"\x1b[0m").is_none());
}
