use xpm::bytes::{lines_read, shown};
use xpm::order::{at_most, first_of_each, stable_order};
use xpm::rounding::{as_double, as_single, bits, power, rounded, scaled_part};
use xpm::text::{chars_of, text_of, upper};

struct Random(u64);

impl Random {
    fn next(&mut self) -> u64 {
        self.0 ^= self.0 << 13;
        self.0 ^= self.0 >> 7;
        self.0 ^= self.0 << 17;
        self.0
    }
}

fn keys(all: &[&str]) -> Vec<Vec<char>> {
    all.iter().map(|s| chars_of(s)).collect()
}

#[test]
fn texts_are_ordered_as_std_orders_them() {
    let all = ["", "a", "A", "ab", "b", "ä", "z", "\u{10000}", "\u{ffff}", "a\u{0}"];
    for a in all {
        for b in all {
            assert_eq!(at_most(&chars_of(a), &chars_of(b)), a <= b, "{:?} {:?}", a, b);
        }
    }
}

#[test]
fn sorting_is_stable() {
    let mut random = Random(0x2545f4914f6cdd1d);
    for _ in 0..2000 {
        let n = (random.next() % 9) as usize;
        let all: Vec<&str> = (0..n).map(|_| ["a", "b", "ab", ""][(random.next() % 4) as usize]).collect();
        let mut wanted: Vec<usize> = (0..n).collect();
        wanted.sort_by_key(|i| all[*i]);
        assert_eq!(stable_order(&keys(&all)), wanted);
        let mut kept: Vec<usize> = (0..n).collect();
        kept.dedup_by(|a, b| all[*a] == all[*b]);
        assert_eq!(first_of_each(&keys(&all)), kept);
    }
}

#[test]
fn doubles_and_singles_are_rounded_as_the_machine_does() {
    let mut random = Random(0x9e3779b97f4a7c15);
    for i in 0..50000u32 {
        let n = ((random.next() as u128) << 32 | random.next() as u128) >> (i % 96);
        let n = n & ((1 << 96) - 1);
        assert_eq!(as_double(n), (n as f64) as u128, "{}", n);
        assert_eq!(as_single(n), (n as f32) as u128, "{}", n);
    }
    assert_eq!(as_double((1 << 53) + 1), 1 << 53);
    assert_eq!(as_double((1 << 53) + 3), (1 << 53) + 4);
    assert_eq!(as_single((1 << 24) + 1), 1 << 24);
}

#[test]
fn parts_are_scaled_as_doubles_are() {
    let mut random = Random(0x853c49e6748fea9b);
    for i in 0..50000u32 {
        let a = (random.next() >> (i % 64)) as u128;
        let b = ((random.next() >> ((i / 3) % 64)) as u128).max(1);
        let k = random.next() % 1000;
        let wanted = (k as f64 * (a as f64 / b as f64)) as u128;
        let (a, b) = (as_double(a), as_double(b));
        assert_eq!(scaled_part(a, b, k), wanted, "{} {} {}", a, b, k);
    }
    assert_eq!(scaled_part(0, 5, 100), 0);
    assert_eq!(scaled_part(5, 5, 100), 100);
}

#[test]
fn quotients_are_rounded_to_even() {
    assert_eq!(rounded(5, 2), 2);
    assert_eq!(rounded(7, 2), 4);
    assert_eq!(rounded(8, 3), 3);
    assert_eq!(rounded(7, 3), 2);
    assert_eq!(bits(0), 0);
    assert_eq!(bits(1), 1);
    assert_eq!(bits(255), 8);
    assert_eq!(bits(u128::MAX), 128);
    assert_eq!(power(0), 1);
    assert_eq!(power(100), 1 << 100);
}

#[test]
fn lines_are_read_from_bytes() {
    let read = |b: &[u8], whole: bool| -> Vec<String> {
        lines_read(b, whole).iter().map(|l| text_of(l)).collect()
    };
    assert_eq!(read(b"a\nb\r\n\nc", true), vec!["a", "b", "", "c"]);
    assert_eq!(read(b"a\nb\r\n\nc", false), vec!["a", "b", ""]);
    assert_eq!(read(b"a\n\xff\nb\n", true), vec!["a", "b"]);
    assert_eq!(read(b"", true), Vec::<String>::new());
    assert_eq!(read(b"x\r", true), vec!["x\r"]);
    assert_eq!(read("ä\n→".as_bytes(), true), vec!["ä", "→"]);
}

#[test]
fn bytes_are_shown_as_text() {
    for b in [&b"plain"[..], "äöü".as_bytes(), b"a\xffb", b"\xe2\x82", b""] {
        assert_eq!(text_of(&shown(b)), String::from_utf8_lossy(b));
    }
}

#[test]
fn upper_case_is_that_of_unicode() {
    for c in ['a', 'Z', '1', 'ß', 'ŉ', 'é', 'ǆ'] {
        assert_eq!(text_of(&upper(c)), c.to_uppercase().to_string());
    }
}
