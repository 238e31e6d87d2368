use xpm::utils::{
    apply_terminal_text, format_size, get_local_package_info, is_arch_package,
    is_xerolinux_distro, strip_ansi,
};

struct Random(u64);

impl Random {
    fn next(&mut self) -> u64 {
        self.0 ^= self.0 << 13;
        self.0 ^= self.0 >> 7;
        self.0 ^= self.0 << 17;
        self.0
    }

    fn text(&mut self, alphabet: &[char], longest: usize) -> String {
        let n = self.next() as usize % (longest + 1);
        (0..n).map(|_| alphabet[self.next() as usize % alphabet.len()]).collect()
    }
}

/// A size as doubles are formatted.
fn with_doubles(bytes: u64) -> String {
    if bytes >= 1_073_741_824 {
        format!("{:.1} GB", bytes as f64 / 1_073_741_824.0)
    } else if bytes >= 1_048_576 {
        format!("{:.1} MB", bytes as f64 / 1_048_576.0)
    } else if bytes >= 1024 {
        format!("{:.1} KB", bytes as f64 / 1024.0)
    } else {
        format!("{} B", bytes)
    }
}

#[test]
fn sizes_are_formatted() {
    let all = [
        (0, "0 B"),
        (1023, "1023 B"),
        (1024, "1.0 KB"),
        (1280, "1.2 KB"),
        (1536, "1.5 KB"),
        (1_048_575, "1024.0 KB"),
        (1_048_576, "1.0 MB"),
        (1_073_741_824, "1.0 GB"),
        (5_368_709_120, "5.0 GB"),
        (u64::MAX, "17179869184.0 GB"),
    ];
    for (bytes, shown) in all {
        assert_eq!(format_size(bytes), shown);
    }
}

#[test]
fn sizes_are_those_of_doubles() {
    let mut random = Random(0x2545f4914f6cdd1d);
    for i in 0..60000u64 {
        let n = random.next() >> (i % 64);
        assert_eq!(format_size(n), with_doubles(n), "{}", n);
    }
    for n in 0..40000u64 {
        assert_eq!(format_size(n), with_doubles(n), "{}", n);
        assert_eq!(format_size(n * 52_429), with_doubles(n * 52_429), "{}", n);
        let exact = (n << 26) + (1 << 25);
        assert_eq!(format_size(exact), with_doubles(exact), "{}", exact);
    }
    for e in 0..64u32 {
        for d in 0..5u64 {
            for n in [(1u64 << e).wrapping_add(d), (1u64 << e).wrapping_sub(d)] {
                assert_eq!(format_size(n), with_doubles(n), "{}", n);
            }
        }
    }
}

/// The text without escapes, by the sequences that there are.
fn plainly(input: &str) -> String {
    let mut shown = String::new();
    let mut it = input.chars().peekable();
    while let Some(c) = it.next() {
        match c {
            '\x1b' => match it.next() {
                None => break,
                Some('[') => {
                    while it.next_if(|c| ('0'..='?').contains(c)).is_some() {}
                    while it.next_if(|c| (' '..='/').contains(c)).is_some() {}
                    it.next_if(|c| ('@'..='~').contains(c));
                }
                Some(']') => loop {
                    match it.next() {
                        None | Some('\x07') => break,
                        Some('\x1b') if it.peek() == Some(&'\\') => {
                            it.next();
                            break;
                        }
                        _ => {}
                    }
                },
                Some('(' | ')' | '*' | '+') => {
                    it.next();
                }
                Some(_) => {}
            },
            '\r' if it.peek() == Some(&'\n') => {
                it.next();
                shown.push('\n');
            }
            c => shown.push(c),
        }
    }
    shown
}

#[test]
fn escapes_are_stripped_for_display() {
    assert_eq!(strip_ansi("\x1b[1mbold\x1b[0m\r\nnext\rback"), "bold\nnext\rback");
    assert_eq!(strip_ansi("\x1b]0;t\x07a\x1b]0;t\x1b\\b"), "ab");
    assert_eq!(strip_ansi("\x1b)0x\x1b"), "x");
    assert_eq!(strip_ansi("plain text"), "plain text");
    assert_eq!(strip_ansi("é"), "é");
    assert_eq!(strip_ansi("\x1b[32mgrün → \x1b[0m█░\r\n"), "grün → █░\n");
}

#[test]
fn display_agrees_with_the_sequences() {
    let mut random = Random(0x9e3779b97f4a7c15);
    let alphabet = ['\x1b', '[', ']', '(', '\x07', '\\', '\r', '\n', '1', ';', 'm', ' ', 'ä', '\x1b'];
    for _ in 0..60000 {
        let t = random.text(&alphabet, 14);
        assert_eq!(strip_ansi(&t), plainly(&t), "{:?}", t);
        assert!(!strip_ansi(&t).contains('\x1b'));
    }
}

#[test]
fn clean_text_stays() {
    for t in ["", "a", "two words\n", "a\rb", "tab\tand\nline", "naïve 日本"] {
        assert_eq!(strip_ansi(t), t);
        assert_eq!(strip_ansi(&strip_ansi(t)), t);
    }
}

#[test]
fn terminal_text_is_overwritten() {
    assert_eq!(apply_terminal_text("", "hello"), "hello");
    assert_eq!(apply_terminal_text("hello", "\rHE"), "HEllo");
    assert_eq!(apply_terminal_text("hello", "\rbye"), "byelo");
    assert_eq!(apply_terminal_text("hi", "\rhello"), "hello");
    assert_eq!(apply_terminal_text("one\ntwo", "\rthree\nfour"), "one\nthree\nfour");
    assert_eq!(apply_terminal_text("one\nlonger", "\rt\nfour"), "one\ntonger\nfour");
    assert_eq!(apply_terminal_text("one\n", "two"), "one\ntwo");
    assert_eq!(apply_terminal_text("one\ntwo", ""), "one\ntwo");
    assert_eq!(apply_terminal_text("a", "\r\n"), "a\n");
    assert_eq!(apply_terminal_text("ab", "c\rd\re"), "ebc");
}

/// The screen behind some text, with a place to write at.
fn drawn(before: &str, text: &str) -> String {
    let (done, line) = before.split_at(before.rfind('\n').map_or(0, |at| at + 1));
    let mut done = done.to_string();
    let mut line: Vec<char> = line.chars().collect();
    let mut at = line.len();
    for c in text.chars() {
        match c {
            '\r' => at = 0,
            '\n' => {
                done.extend(line.drain(..));
                done.push('\n');
                at = 0;
            }
            c if at < line.len() => {
                line[at] = c;
                at += 1;
            }
            c => {
                line.push(c);
                at += 1;
            }
        }
    }
    done.extend(line);
    done
}

#[test]
fn terminal_text_may_come_in_pieces() {
    let mut random = Random(0x853c49e6748fea9b);
    let alphabet = ['a', 'ß', '\r', '\n', 'b'];
    for _ in 0..5000 {
        let before = random.text(&['x', 'y', '\n'], 6);
        let first = random.text(&alphabet, 6);
        let second = random.text(&alphabet, 6);
        let whole = apply_terminal_text(&before, &format!("{}{}", first, second));
        assert_eq!(whole, drawn(&before, &format!("{}{}", first, second)));
        if !first.contains('\r') {
            let pieces = apply_terminal_text(&apply_terminal_text(&before, &first), &second);
            assert_eq!(whole, pieces);
        }
        if let Some(end) = before.rfind('\n') {
            assert!(whole.starts_with(&before[..end + 1]));
        }
    }
}

#[test]
fn package_files_are_known_by_their_names() {
    for path in ["a.pkg.tar.zst", "/tmp/b.pkg.tar.xz", "c.pkg.tar.gz", "d.pkg.tar", ".pkg.tar"] {
        assert!(is_arch_package(path), "{}", path);
    }
    for path in ["", "a.pkg.tar.bz2", "a.pkg.tar.zst.sig", "a.tar.zst", "pkg.tar"] {
        assert!(!is_arch_package(path), "{}", path);
    }
}

#[test]
fn local_packages_are_described() {
    let p = get_local_package_info("qt6-base-6.6.1-1-x86_64.pkg.tar.zst", Some(2048)).unwrap();
    assert_eq!(p.name, "qt6-base");
    assert_eq!(p.display_name, "qt6-base");
    assert_eq!(p.version, "6.6.1-1");
    assert_eq!(p.description, "Local package: qt6-base-6.6.1-1-x86_64.pkg.tar.zst");
    assert_eq!(p.repository, "local");
    assert_eq!(p.backend, 2);
    assert!(!p.installed);
    assert!(!p.has_update);
    assert_eq!(p.installed_size, "2.0 KB");
    assert_eq!(p.icon_name, "package");
    let p = get_local_package_info("tool.pkg.tar", None).unwrap();
    assert_eq!(p.name, "tool");
    assert_eq!(p.version, "unknown");
    assert_eq!(p.installed_size, "Unknown");
    let p = get_local_package_info("a-1-2.pkg.tar.xz", None).unwrap();
    assert_eq!(p.name, "");
    assert_eq!(p.version, "a-1");
    assert!(get_local_package_info("notes.txt", Some(1)).is_none());
}

#[test]
fn every_package_file_gives_a_package() {
    for name in ["a.pkg.tar.zst", "b.pkg.tar.bz2", "x", "c-1-1-any.pkg.tar.gz", "y.pkg.tar"] {
        assert_eq!(get_local_package_info(name, None).is_some(), is_arch_package(name));
    }
}

#[test]
fn the_distribution_is_recognized() {
    let some = |s: &str| Some(s.to_string());
    assert!(is_xerolinux_distro(&some("NAME=Arch\nID=xerolinux\n"), &None));
    assert!(is_xerolinux_distro(&some("PRETTY_NAME=\"XeroLinux\""), &None));
    assert!(is_xerolinux_distro(&some("NAME=\"XEROLINUX\""), &None));
    assert!(is_xerolinux_distro(&None, &some("DISTRIB_ID=XeroLinux")));
    assert!(is_xerolinux_distro(&some("ID=arch"), &some("DISTRIB_DESCRIPTION=\"XeroLinux\"")));
    assert!(!is_xerolinux_distro(&some("HOME_URL=https://xerolinux.xyz"), &None));
    assert!(!is_xerolinux_distro(&some("ID=arch"), &some("ID=xerolinux")));
    assert!(!is_xerolinux_distro(&None, &None));
}

#[test]
fn local_names_and_versions_are_read() {
    for name in ["vim", "qt6-base", "7zip", "a-1-b"] {
        for ending in [".pkg.tar.zst", ".pkg.tar.xz", ".pkg.tar.gz", ".pkg.tar"] {
            let p = get_local_package_info(&format!("{}-v1.2-3-any{}", name, ending), None).unwrap();
            assert_eq!(p.name, name);
            assert_eq!(p.version, "v1.2-3");
        }
    }
}
