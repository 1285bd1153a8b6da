use openmcpgdb::number::{read_u64, write_i64, write_u64};
use openmcpgdb::scan;

const SAMPLES: [&str; 20] = [
    "",
    " ",
    "\n",
    "\r\n",
    "a",
    "a\n",
    "a\r\nb\rc\n\nd",
    "a\r",
    "\n\n",
    "  two words  ",
    "\u{a0}\u{3000}wide\u{2003}space\u{85}",
    "Breakpoint 1, main ()",
    "aaaa",
    "a at b at c",
    "key=value=other",
    "::",
    "ÄÖÜ äöü ABC xyz",
    "\t12\t34",
    "12ab",
    "日本語 text",
];

const PATTERNS: [&str; 9] = ["a", " at ", "=", ":", "aa", "", "\n", " ", "words"];

fn text(chars: &[char]) -> String {
    scan::text_of(chars)
}

#[test]
fn white_space_is_that_of_unicode() {
    for code in 0..0x11_0000u32 {
        if let Some(c) = char::from_u32(code) {
            assert_eq!(scan::white_space(c), c.is_whitespace(), "{code:x}");
        }
    }
}

#[test]
fn texts_and_characters_convert_both_ways() {
    for sample in SAMPLES {
        let chars = scan::chars_of(sample);
        assert_eq!(chars, sample.chars().collect::<Vec<char>>());
        assert_eq!(text(&chars), sample);
    }
}

#[test]
fn trimming_takes_white_space_off_the_ends() {
    for sample in SAMPLES {
        let chars = scan::chars_of(sample);
        assert_eq!(text(scan::strip_start(&chars)), sample.trim_start());
        assert_eq!(text(scan::strip_end(&chars)), sample.trim_end());
        assert_eq!(text(scan::strip_both(&chars)), sample.trim());
    }
}

#[test]
fn lines_are_cut_at_line_feeds() {
    for sample in SAMPLES {
        let chars = scan::chars_of(sample);
        let lines: Vec<String> = scan::split_lines(&chars).iter().map(|line| text(line)).collect();
        assert_eq!(lines, sample.lines().map(str::to_string).collect::<Vec<String>>());
    }
    let chars = scan::chars_of("a\r\nb\rc\n\nd");
    let lines: Vec<String> = scan::split_lines(&chars).iter().map(|line| text(line)).collect();
    assert_eq!(lines, ["a", "b\rc", "", "d"]);
}

#[test]
fn patterns_are_found_at_both_ends() {
    for sample in SAMPLES {
        let chars = scan::chars_of(sample);
        for pattern in PATTERNS {
            let wanted = scan::chars_of(pattern);
            let first = scan::find_first(&chars, &wanted);
            let last = scan::find_last(&chars, &wanted);
            let bytes = |at: Option<usize>| at.map(|at| text(&chars[..at]).len());
            assert_eq!(bytes(first), sample.find(pattern), "{sample:?} {pattern:?}");
            assert_eq!(bytes(last), sample.rfind(pattern), "{sample:?} {pattern:?}");
            assert_eq!(scan::has(&chars, pattern), sample.contains(pattern));
            assert_eq!(scan::begins(&chars, pattern), sample.starts_with(pattern));
            assert_eq!(scan::ends(&chars, &wanted), sample.ends_with(pattern));
            assert_eq!(
                text(scan::strip(&chars, pattern)),
                sample.strip_prefix(pattern).unwrap_or(sample)
            );
            let shown = |parts: Option<(&[char], &[char])>| parts.map(|(l, r)| (text(l), text(r)));
            let owned = |parts: Option<(&str, &str)>| {
                parts.map(|(l, r)| (l.to_string(), r.to_string()))
            };
            assert_eq!(shown(scan::cut_first(&chars, pattern)), owned(sample.split_once(pattern)));
            assert_eq!(shown(scan::cut_last(&chars, pattern)), owned(sample.rsplit_once(pattern)));
        }
    }
}

#[test]
fn letters_of_ascii_are_put_in_lower_case() {
    for sample in SAMPLES {
        let chars = scan::chars_of(sample);
        assert_eq!(text(&scan::lowered(&chars)), sample.to_ascii_lowercase());
    }
    assert_eq!(text(&scan::lowered(&scan::chars_of("SIGSEGV ÄZ@["))), "sigsegv Äz@[");
}

#[test]
fn words_are_cut_off_one_by_one() {
    for sample in SAMPLES {
        let chars = scan::chars_of(sample);
        let mut words: Vec<String> = Vec::new();
        let mut rest: &[char] = &chars;
        while let Some((word, behind)) = scan::cut_word(rest) {
            words.push(text(word));
            rest = behind;
        }
        assert_eq!(words, sample.split_whitespace().collect::<Vec<&str>>());
    }
}

#[test]
fn digits_are_counted_at_the_front() {
    for (sample, size) in [("", 0), ("12ab", 2), ("a12", 0), ("007", 3), ("1 2", 1), ("١٢", 0)] {
        assert_eq!(scan::count_digits(&scan::chars_of(sample)), size);
    }
}

#[test]
fn numbers_are_read_as_std_reads_them() {
    for sample in [
        "0",
        "7",
        "007",
        "+5",
        "++5",
        "+",
        "",
        "-1",
        " 1",
        "1 ",
        "12a",
        "18446744073709551615",
        "18446744073709551616",
        "00000000000000000000000000001",
        "99999999999999999999999",
    ] {
        assert_eq!(read_u64(&scan::chars_of(sample)), sample.parse::<u64>().ok(), "{sample}");
    }
}

#[test]
fn numbers_are_written_in_decimal_and_read_back() {
    for value in [0, 1, 9, 10, 42, 100, 65535, u64::MAX - 1, u64::MAX] {
        let digits = write_u64(value);
        assert_eq!(text(&digits), value.to_string());
        assert_eq!(read_u64(&digits), Some(value));
    }
    for value in [0, -1, 5, -10, i64::MAX, i64::MIN] {
        assert_eq!(text(&write_i64(value)), value.to_string());
    }
}
