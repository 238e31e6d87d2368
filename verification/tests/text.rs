use xpm::text::{
    after_words, before_words, begins_with, byte_len, chars_of, contains, decimal_of, ending,
    ends_in, equals, find, joined, lines_of, lower, mentions, pieces, replaced, rest_of,
    signed_number, space, text_of, trimmed, words_of, Sep,
};

/// Texts over an alphabet, all up to a length.
fn texts(alphabet: &[char], longest: usize) -> Vec<String> {
    let mut all = vec![String::new()];
    let mut last = vec![String::new()];
    for _ in 0..longest {
        let mut next = Vec::new();
        for s in &last {
            for c in alphabet {
                next.push(format!("{}{}", s, c));
            }
        }
        all.extend(next.iter().cloned());
        last = next;
    }
    all
}

fn of(parts: Vec<Vec<char>>) -> Vec<String> {
    parts.iter().map(|p| text_of(p)).collect()
}

#[test]
fn spaces_are_those_of_unicode() {
    for n in 0..=0x10ffffu32 {
        if let Some(c) = char::from_u32(n) {
            assert_eq!(space(c), c.is_whitespace(), "{:x}", n);
        }
    }
}

#[test]
fn characters_come_back_as_text() {
    for s in ["", "a", "äöü → x", "\u{10ffff}"] {
        assert_eq!(text_of(&chars_of(s)), s);
        assert_eq!(byte_len(&chars_of(s)), s.len());
    }
}

#[test]
fn finding_gives_the_first_place() {
    let s = chars_of("abcabc");
    assert_eq!(find(&s, &chars_of("bc"), 0), Some(1));
    assert_eq!(find(&s, &chars_of("bc"), 2), Some(4));
    assert_eq!(find(&s, &chars_of("bc"), 5), None);
    assert_eq!(find(&s, &chars_of(""), 3), Some(3));
    assert!(contains(&s, &chars_of("cab")));
    assert!(!contains(&s, &chars_of("cb")));
    assert!(mentions(&s, "abc"));
    for t in texts(&['a', 'b'], 6) {
        for p in texts(&['a', 'b'], 3) {
            assert_eq!(find(&chars_of(&t), &chars_of(&p), 0), t.find(&p));
            assert_eq!(contains(&chars_of(&t), &chars_of(&p)), t.contains(&p));
        }
    }
}

#[test]
fn texts_are_split_at_separators() {
    for t in texts(&['a', '-', '_', '7'], 5) {
        let s = chars_of(&t);
        let dashes: Vec<&str> = t.split('-').collect();
        assert_eq!(of(pieces(&s, Sep::At('-'))), dashes);
        let either: Vec<&str> = t.split(|c: char| c == '-' || c == '_').collect();
        assert_eq!(of(pieces(&s, Sep::Either('-', '_'))), either);
        let digits: Vec<&str> = t.split(|c: char| !c.is_ascii_digit()).collect();
        assert_eq!(of(pieces(&s, Sep::NotDigit)), digits);
    }
}

#[test]
fn joining_undoes_splitting() {
    for t in texts(&['a', '-', 'b'], 6) {
        let parts = pieces(&chars_of(&t), Sep::At('-'));
        let whole = joined(&parts, 0, parts.len(), &['-']);
        assert_eq!(text_of(&whole), t);
    }
}

#[test]
fn splitting_undoes_joining() {
    let parts = vec![chars_of("one"), chars_of(""), chars_of("two three")];
    let whole = joined(&parts, 0, 3, &['-']);
    assert_eq!(text_of(&whole), "one--two three");
    assert_eq!(pieces(&whole, Sep::At('-')), parts);
    for part in pieces(&chars_of("-a-b--c"), Sep::At('-')) {
        assert!(!part.contains(&'-'));
    }
}

#[test]
fn lines_words_and_trimming_are_those_of_std() {
    for t in texts(&['a', ' ', '\n', '\r', '\u{3000}'], 5) {
        let s = chars_of(&t);
        let lines: Vec<&str> = t.lines().collect();
        assert_eq!(of(lines_of(&s)), lines, "{:?}", t);
        let words: Vec<&str> = t.split_whitespace().collect();
        assert_eq!(of(words_of(&s)), words, "{:?}", t);
        assert_eq!(text_of(&trimmed(&s)), t.trim(), "{:?}", t);
        for line in lines_of(&s) {
            assert!(!line.contains(&'\n'));
        }
    }
}

#[test]
fn every_occurrence_is_replaced() {
    for t in texts(&['a', 'b'], 6) {
        for p in ["a", "ab", "aa", "bab"] {
            for by in ["", "x", "aa"] {
                let r = replaced(&chars_of(&t), &chars_of(p), &chars_of(by));
                assert_eq!(text_of(&r), t.replace(p, by), "{} {} {}", t, p, by);
            }
        }
    }
}

#[test]
fn beginnings_and_ends() {
    let s = chars_of("Name=Files");
    assert!(begins_with(&s, "Name="));
    assert!(!begins_with(&s, "name="));
    assert!(ends_in(&s, "Files"));
    assert_eq!(after_words(&s, "Name=").map(|v| text_of(&v)), Some("Files".to_string()));
    assert_eq!(after_words(&s, "Exec="), None);
    assert_eq!(before_words(&s, "les").map(|v| text_of(&v)), Some("Name=Fi".to_string()));
    assert_eq!(before_words(&s, "Name"), None);
    assert_eq!(text_of(&rest_of(&s, "Name=")), "Files");
    assert!(equals("abc", "abc"));
    assert!(!equals("abc", "abd"));
    assert!(!equals("abc", "ab"));
}

#[test]
fn lower_case_is_that_of_unicode() {
    for s in ["Firefox", "ÄÖÜ ẞ", "ΟΔΟΣ", "İstanbul", "abc-123"] {
        assert_eq!(text_of(&lower(&chars_of(s))), s.to_lowercase());
    }
    assert_eq!(text_of(&lower(&chars_of("Qt6-Base"))), "qt6-base");
}

#[test]
fn numbers_are_written_and_read() {
    for n in [0u64, 7, 10, 99, 1024, u64::MAX] {
        assert_eq!(text_of(&decimal_of(n)), n.to_string());
    }
    for s in texts(&['1', '0', '-', '+', ' '], 4) {
        assert_eq!(signed_number(&chars_of(&s)), s.parse::<i32>().ok(), "{:?}", s);
    }
    for s in ["2147483647", "2147483648", "-2147483648", "-2147483649", "+5", "0007", "99999999999"] {
        assert_eq!(signed_number(&chars_of(s)), s.parse::<i32>().ok(), "{}", s);
    }
}

#[test]
fn endings_are_cut_between_characters() {
    let s = chars_of("aäb");
    assert_eq!(ending(&s, 1).map(|v| text_of(&v)), Some("b".to_string()));
    assert_eq!(ending(&s, 2), None);
    assert_eq!(ending(&s, 3).map(|v| text_of(&v)), Some("äb".to_string()));
    assert_eq!(ending(&s, 4).map(|v| text_of(&v)), Some("aäb".to_string()));
}
