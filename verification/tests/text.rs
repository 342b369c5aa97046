use astroburst_server::text::{
    contains, find, format_unsigned, lines, only_digits, parse_signed, parse_unsigned, rsplit_once,
    same, split_once, split_once_text, starts_with, strip_prefix, to_lower, trim, trim_end,
    trim_end_matches, trim_start, word_two,
};

const TEXTS: [&str; 24] = [
    "",
    " ",
    "a",
    "Abc",
    "  x y  ",
    "\t\r\n z \u{b}\u{c}",
    "\u{a0}q\u{3000}",
    "\u{85}\u{1680}\u{2028}w\u{2029}\u{202f}\u{205f}",
    "\u{200b}zero width\u{200b}",
    "ÄÖÜ äöü İ ß",
    "a/b/c",
    "/",
    "a//",
    "http://h:1//",
    "one\ntwo\r\nthree\r",
    "\n\n",
    "\r\n",
    "last\n",
    "k=v=w",
    "HTTP/1.0 200 OK\r\n\r\nbody\r\n\r\nmore",
    "aaaab aab",
    "日本語/日本",
    "+5",
    "00042",
];

#[test]
fn trimming_is_that_of_std() {
    for s in TEXTS {
        assert_eq!(trim(s), s.trim(), "{s:?}");
        assert_eq!(trim_start(s), s.trim_start(), "{s:?}");
        assert_eq!(trim_end(s), s.trim_end(), "{s:?}");
        for c in ['/', 'a', '本'] {
            assert_eq!(trim_end_matches(s, c), s.trim_end_matches(c), "{s:?}");
        }
    }
}

#[test]
fn searching_is_that_of_std() {
    for s in TEXTS {
        for part in ["", "a", "aab", "/", "\r\n\r\n", "日本", " "] {
            assert_eq!(contains(s, part), s.contains(part), "{s:?} {part:?}");
            assert_eq!(starts_with(s, part), s.starts_with(part), "{s:?} {part:?}");
            assert_eq!(strip_prefix(s, part), s.strip_prefix(part), "{s:?} {part:?}");
            assert_eq!(split_once_text(s, part), s.split_once(part), "{s:?} {part:?}");
            assert_eq!(same(s, part), s == part);
        }
        for c in ['/', '=', 'a', '\n', '本'] {
            assert_eq!(split_once(s, c), s.split_once(c), "{s:?} {c:?}");
            assert_eq!(rsplit_once(s, c), s.rsplit_once(c), "{s:?} {c:?}");
            let at = s.chars().position(|d| d == c).unwrap_or(s.chars().count());
            assert_eq!(find(s, c), at, "{s:?} {c:?}");
        }
        assert_eq!(word_two(s), s.split_whitespace().nth(1).unwrap_or(""), "{s:?}");
    }
}

#[test]
fn lines_are_those_of_std() {
    for s in TEXTS {
        assert_eq!(lines(s), s.lines().map(|l| l.to_string()).collect::<Vec<_>>(), "{s:?}");
    }
}

#[test]
fn letters_are_lowered_as_in_ascii() {
    for s in TEXTS {
        assert_eq!(to_lower(s), s.to_ascii_lowercase(), "{s:?}");
    }
}

#[test]
fn numbers_are_read_as_by_std() {
    for s in [
        "", "+", "-", "0", "-0", "+0", "+7", "-7", "--7", "+-7", "7 ", " 7", "00042", "65535",
        "65536", "4294967296", "18446744073709551615", "18446744073709551616", "9223372036854775807",
        "9223372036854775808", "-9223372036854775808", "-9223372036854775809", "1e3", "٣", "1_000",
    ] {
        assert_eq!(parse_unsigned(s, u64::MAX), s.parse::<u64>().ok(), "{s:?}");
        assert_eq!(parse_unsigned(s, 65535), s.parse::<u16>().ok().map(|n| n as u64), "{s:?}");
        assert_eq!(parse_signed(s), s.parse::<i64>().ok(), "{s:?}");
        assert_eq!(only_digits(s), s.chars().all(|c| c.is_ascii_digit()), "{s:?}");
    }
}

#[test]
fn numbers_are_written_as_by_std() {
    for n in [0, 1, 9, 10, 99, 100, 65536, u64::MAX - 1, u64::MAX] {
        assert_eq!(format_unsigned(n), n.to_string());
    }
}
