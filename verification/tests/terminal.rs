use xpm::terminal::{
    apply_terminal_text, is_progress_bar_line, last_line_of, skip_escape, strip_ansi,
};
use xpm::text::chars_of;

struct Random(u64);

impl Random {
    fn next(&mut self) -> u64 {
        self.0 ^= self.0 << 13;
        self.0 ^= self.0 >> 7;
        self.0 ^= self.0 << 17;
        self.0
    }

    fn text(&mut self, alphabet: &[char], longest: usize) -> String {
        let n = self.next() as usize % (longest + 1);
        (0..n).map(|_| alphabet[self.next() as usize % alphabet.len()]).collect()
    }
}

/// The visible text, with regular control flow over an iterator of characters.
fn plainly(input: &str) -> String {
    let mut lines: Vec<String> = Vec::new();
    let mut line = String::new();
    let mut it = input.chars().peekable();
    while let Some(c) = it.next() {
        match c {
            '\x1b' => match it.next() {
                None => break,
                Some('[') => {
                    while it.next_if(|c| ('0'..='?').contains(c)).is_some() {}
                    while it.next_if(|c| (' '..='/').contains(c)).is_some() {}
                    it.next_if(|c| ('@'..='~').contains(c));
                }
                Some(']') => loop {
                    match it.next() {
                        None | Some('\x07') => break,
                        Some('\x1b') if it.peek() == Some(&'\\') => {
                            it.next();
                            break;
                        }
                        _ => {}
                    }
                },
                Some('(') | Some(')') | Some('*') | Some('+') => {
                    it.next();
                }
                Some(_) => {}
            },
            '\r' => {
                line.clear();
                if it.next_if_eq(&'\n').is_some() {
                    lines.push(String::new());
                }
            }
            '\n' => lines.push(std::mem::take(&mut line)),
            c => line.push(c),
        }
    }
    if !line.is_empty() {
        lines.push(line);
    }
    lines.join("\n")
}

#[test]
fn escapes_are_stripped() {
    assert_eq!(strip_ansi("\x1b[1;32mok\x1b[0m done"), "ok done");
    assert_eq!(strip_ansi("\x1b]0;title\x07text"), "text");
    assert_eq!(strip_ansi("\x1b]0;title\x1b\\text"), "text");
    assert_eq!(strip_ansi("\x1b(Btext"), "text");
    assert_eq!(strip_ansi("\x1b=text"), "text");
    assert_eq!(strip_ansi("text\x1b"), "text");
    assert_eq!(strip_ansi("grün → blau"), "grün → blau");
}

#[test]
fn returns_start_the_line_again() {
    assert_eq!(strip_ansi("10%\r20%\r30%"), "30%");
    assert_eq!(strip_ansi("one\ntwo\n"), "one\ntwo");
    assert_eq!(strip_ansi("one\r\ntwo"), "\ntwo");
    assert_eq!(strip_ansi("\n\n"), "\n");
    assert_eq!(strip_ansi(""), "");
}

#[test]
fn stripping_agrees_with_the_sequences() {
    let mut random = Random(0x2545f4914f6cdd1d);
    let alphabet = ['\x1b', '[', ']', '(', '\x07', '\\', '\r', '\n', '1', ';', 'm', ' ', 'ä', '\x1b'];
    for _ in 0..60000 {
        let t = random.text(&alphabet, 14);
        assert_eq!(strip_ansi(&t), plainly(&t), "{:?}", t);
        assert!(!strip_ansi(&t).contains('\x1b'));
    }
}

#[test]
fn escapes_end_within_the_text() {
    let s = chars_of("\x1b[31mred");
    assert_eq!(skip_escape(&s, 0), 5);
    let s = chars_of("x\x1b");
    assert_eq!(skip_escape(&s, 1), 2);
}

#[test]
fn progress_bars_are_told_from_text() {
    for bar in ["", "   ", "####----", "[#####] ###", "━━━━━╸ ", "...", "### a"] {
        assert!(is_progress_bar_line(&chars_of(bar)), "{:?}", bar);
    }
    for line in ["resolving dependencies", "##", "#", "ab#", "abc - def", "downloading core.db"] {
        assert!(!is_progress_bar_line(&chars_of(line)), "{:?}", line);
    }
}

#[test]
fn bars_are_counted_by_characters() {
    let bars = "#.-=>█░▒▓▏▎▍▌▋▊▉━─╸╺ ";
    let mut random = Random(0x9e3779b97f4a7c15);
    let mut alphabet: Vec<char> = bars.chars().collect();
    alphabet.extend("abcdefghijklmnopqr\t".chars());
    for _ in 0..20000 {
        let t = random.text(&alphabet, 9);
        let trimmed = t.trim();
        let total = trimmed.chars().count();
        let wanted = total == 0
            || (total >= 3 && trimmed.chars().filter(|c| bars.contains(*c)).count() > total / 2);
        assert_eq!(is_progress_bar_line(&chars_of(&t)), wanted, "{:?}", t);
    }
}

#[test]
fn printed_lines_start_again() {
    assert_eq!(apply_terminal_text("", "hello"), "hello");
    assert_eq!(apply_terminal_text("hello", "\rbye"), "bye");
    assert_eq!(apply_terminal_text("one\ntwo", "\rthree\nfour"), "one\nthree\nfour");
    assert_eq!(apply_terminal_text("one\n", "two"), "one\ntwo");
    assert_eq!(apply_terminal_text("one\ntwo", ""), "one\ntwo");
    assert_eq!(apply_terminal_text("a", "\r\n"), "\n");
}

#[test]
fn printed_text_may_come_in_pieces() {
    let mut random = Random(0x853c49e6748fea9b);
    let alphabet = ['a', 'ß', '\r', '\n', 'b'];
    for _ in 0..5000 {
        let before = random.text(&['x', 'y', '\n'], 6);
        let first = random.text(&alphabet, 6);
        let second = random.text(&alphabet, 6);
        let whole = apply_terminal_text(&before, &format!("{}{}", first, second));
        let pieces = apply_terminal_text(&apply_terminal_text(&before, &first), &second);
        assert_eq!(whole, pieces);
        if let Some(end) = before.rfind('\n') {
            assert!(whole.starts_with(&before[..end + 1]));
        }
    }
}

#[test]
fn last_lines_start_behind_a_feed() {
    assert_eq!(last_line_of(&chars_of("")), 0);
    assert_eq!(last_line_of(&chars_of("abc")), 0);
    assert_eq!(last_line_of(&chars_of("a\nb\nc")), 4);
    assert_eq!(last_line_of(&chars_of("ä\n")), 2);
}
