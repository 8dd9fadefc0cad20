use sysmon::number;
use sysmon::text;

const SAMPLES: [&str; 14] = [
    "",
    " ",
    "one",
    "  one  two\tthree ",
    "a\u{a0}b\u{2003}c\u{3000}",
    "cpu  1 2 3\ncpu0 4 5 6\n",
    "line\r\nnext\r\n\r\nlast\r",
    "\n\n",
    "::a::b:",
    ",x,,y",
    "äöü €uro 漢字 🦀",
    "\u{85}edge\u{2028}",
    "tail\n",
    "\r\n",
];

#[test]
fn white_space_is_that_of_unicode() {
    for n in 0..=0x10ffffu32 {
        if let Some(c) = char::from_u32(n) {
            assert_eq!(text::white(c), c.is_whitespace(), "{:x}", n);
        }
    }
}

#[test]
fn words_are_those_between_white_space() {
    for s in SAMPLES {
        let want: Vec<String> = s.split_whitespace().map(|w| w.to_string()).collect();
        assert_eq!(text::words(s), want, "{:?}", s);
    }
    assert_eq!(text::words(" a  b "), vec!["a".to_string(), "b".to_string()]);
}

#[test]
fn lines_end_in_line_feeds() {
    for s in SAMPLES {
        let want: Vec<String> = s.lines().map(|w| w.to_string()).collect();
        assert_eq!(text::lines(s), want, "{:?}", s);
    }
    assert_eq!(text::lines("a\r\nb\r"), vec!["a".to_string(), "b\r".to_string()]);
}

#[test]
fn pieces_are_those_between_separators() {
    for s in SAMPLES {
        for sep in [':', ',', ' ', '\n'] {
            let want: Vec<String> = s.split(sep).map(|w| w.to_string()).collect();
            assert_eq!(text::split(s, sep), want, "{:?}", s);
        }
    }
    assert_eq!(text::split("", ':'), vec!["".to_string()]);
}

#[test]
fn trimming_takes_both_ends() {
    for s in SAMPLES {
        assert_eq!(text::trim(s), s.trim(), "{:?}", s);
        assert_eq!(text::trim_end(s, ':'), s.trim_end_matches(':'), "{:?}", s);
    }
    assert_eq!(text::trim_end("eth0::", ':'), "eth0");
}

#[test]
fn parts_and_prefixes_are_found() {
    for s in SAMPLES {
        for t in SAMPLES {
            assert_eq!(text::contains(s, t), s.contains(t), "{:?} {:?}", s, t);
            assert_eq!(text::starts_with(s, t), s.starts_with(t), "{:?} {:?}", s, t);
            assert_eq!(text::same(s, t), s == t, "{:?} {:?}", s, t);
        }
    }
    assert!(text::contains("systemd", "stem"));
    assert!(text::contains("x", ""));
    assert!(!text::contains("", "x"));
    assert!(text::has_char("nvme0n1p1", 'p'));
    assert!(!text::has_char("nvme0n1", 'p'));
}

#[test]
fn fields_are_cut_and_filled() {
    assert_eq!(text::take("漢字かな", 2), "漢字");
    assert_eq!(text::take("ab", 5), "ab");
    assert_eq!(text::left("ab", 4), format!("{:<4}", "ab"));
    assert_eq!(text::right("ab", 4), format!("{:>4}", "ab"));
    assert_eq!(text::left("abcde", 4), "abcde");
    assert_eq!(text::right("°C", 3), " °C");
}

#[test]
fn encoded_length_counts_bytes() {
    for s in SAMPLES {
        assert_eq!(text::utf8_len(s), s.len() as u128, "{:?}", s);
    }
    assert_eq!(text::utf8_len("a\u{7f}\u{80}\u{7ff}\u{800}\u{ffff}\u{10000}"), 1 + 1 + 2 + 2 + 3 + 3 + 4);
}

#[test]
fn unsigned_numbers_are_read() {
    let samples = [
        "", "0", "+", "-", "+0", "-0", "00012", "+7", "-7", "1 ", " 1", "4294967295", "4294967296",
        "18446744073709551615", "18446744073709551616", "99999999999999999999999", "1e3", "٣", "+-1",
        "2147483647", "2147483648", "-2147483648", "-2147483649",
    ];
    for s in samples {
        assert_eq!(number::parse_u64(s), s.parse::<u64>().ok(), "{:?}", s);
        assert_eq!(number::parse_u32(s), s.parse::<u32>().ok(), "{:?}", s);
        assert_eq!(number::parse_i32(s), s.parse::<i32>().ok(), "{:?}", s);
    }
    assert_eq!(number::parse_u64("18446744073709551615"), Some(u64::MAX));
    assert_eq!(number::parse_u32("4294967296"), None);
    assert_eq!(number::parse_i32("-2147483648"), Some(i32::MIN));
}

#[test]
fn decimal_notation_reads_back() {
    for n in [0u64, 1, 9, 10, 99, 100, 12345, u32::MAX as u64, u64::MAX] {
        assert_eq!(number::decimal(n), n.to_string());
        assert_eq!(number::parse_u64(&number::decimal(n)), Some(n));
    }
    for n in [0i32, 5, -5, i32::MIN, i32::MAX] {
        assert_eq!(number::signed_decimal(n), n.to_string());
    }
}
