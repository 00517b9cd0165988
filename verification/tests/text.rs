use pi_core::decimal::{parse_u32, parse_u64, to_decimal};
use pi_core::text::{
    chars_of, contains_str, eq_ignore_ascii_case, fitting_chars, is_white_space, lines_of,
    string_of, to_ascii_lowercase, trim_str, width_of, words_of,
};

const SAMPLES: [&str; 14] = [
    "", " ", "a", " a ", "a\nb", "a\r\nb\r\n", "\n\n", "a\rb", "\u{a0}x\u{3000}", "A\u{c4}z",
    "tab\there", "one  two\nthree", "\r\n", "trailing\r",
];

#[test]
fn white_space_is_that_of_unicode() {
    for n in 0..=0x10ffffu32 {
        if let Some(c) = char::from_u32(n) {
            assert_eq!(is_white_space(c), c.is_whitespace(), "{n:x}");
            assert_eq!(width_of(c), c.len_utf8(), "{n:x}");
        }
    }
}

#[test]
fn text_is_taken_apart_as_std_does() {
    for s in SAMPLES {
        let cs = chars_of(s);
        let lines: Vec<String> = lines_of(&cs).iter().map(|l| string_of(l)).collect();
        assert_eq!(lines, s.lines().map(str::to_string).collect::<Vec<_>>(), "{s:?}");
        let words: Vec<String> = words_of(&cs).iter().map(|l| string_of(l)).collect();
        assert_eq!(words, s.split_whitespace().map(str::to_string).collect::<Vec<_>>(), "{s:?}");
        assert_eq!(trim_str(s), s.trim(), "{s:?}");
        assert_eq!(to_ascii_lowercase(s), s.to_ascii_lowercase(), "{s:?}");
        for t in SAMPLES {
            assert_eq!(contains_str(&cs, t), s.contains(t), "{s:?} {t:?}");
            assert_eq!(eq_ignore_ascii_case(s, t), s.eq_ignore_ascii_case(t), "{s:?} {t:?}");
        }
    }
}

#[test]
fn as_much_fits_as_there_is_room() {
    let cs = chars_of("a\u{e4}\u{20ac}\u{1f600}b");
    let expected = [0, 1, 1, 2, 2, 2, 3, 3, 3, 3, 4, 5, 5];
    for (room, fits) in expected.iter().enumerate() {
        assert_eq!(fitting_chars(&cs, room), *fits, "{room}");
    }
}

#[test]
fn numbers_are_read_as_std_does() {
    let inputs = [
        "0", "7", "007", "+7", "-7", "", "+", " 7", "7 ", "1e3", "4294967295", "4294967296",
        "18446744073709551615", "18446744073709551616", "\u{663}",
    ];
    for s in inputs {
        assert_eq!(parse_u32(s), s.parse::<u32>().ok(), "{s:?}");
        assert_eq!(parse_u64(s), s.parse::<u64>().ok(), "{s:?}");
    }
    for n in [0, 1, 9, 10, 99, 100, 12_345, u64::MAX] {
        assert_eq!(to_decimal(n), n.to_string());
        assert_eq!(parse_u64(&to_decimal(n)), Some(n));
    }
}

#[test]
fn numerals_are_distinct() {
    let mut seen: Vec<String> = (0..2_000u64).map(to_decimal).collect();
    seen.sort();
    seen.dedup();
    assert_eq!(seen.len(), 2_000);
}
