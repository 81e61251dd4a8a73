use rip::decimal::{decimal_string, digit_value, parse_decimal, parse_u16, parse_u32};
use rip::text::{
    char_is_space, chars_of, contains, field_spans, line_end, matches_at, word_end,
};

fn chars(text: &str) -> Vec<char> {
    text.chars().collect()
}

#[test]
fn white_space_is_what_the_standard_library_says() {
    for code in 0..=0x10ffffu32 {
        if let Some(c) = char::from_u32(code) {
            assert_eq!(char_is_space(c), c.is_whitespace(), "U+{:04X}", code);
        }
    }
}

#[test]
fn chars_of_gives_each_character() {
    assert_eq!(chars_of(""), Vec::<char>::new());
    assert_eq!(chars_of("a\u{e9}\u{1f600}\n"), vec!['a', '\u{e9}', '\u{1f600}', '\n']);
}

#[test]
fn line_ends_at_the_line_feed() {
    let text = chars("ab\ncd\n\nef");
    assert_eq!(line_end(&text, 0), 2);
    assert_eq!(line_end(&text, 1), 2);
    assert_eq!(line_end(&text, 2), 2);
    assert_eq!(line_end(&text, 3), 5);
    assert_eq!(line_end(&text, 6), 6);
    assert_eq!(line_end(&text, 7), 9);
    assert_eq!(line_end(&text, 9), 9);
    assert_eq!(line_end(&[], 0), 0);
}

#[test]
fn word_ends_at_white_space() {
    let text = chars("ab cd\te");
    assert_eq!(word_end(&text, 0), 2);
    assert_eq!(word_end(&text, 2), 2);
    assert_eq!(word_end(&text, 3), 5);
    assert_eq!(word_end(&text, 6), 7);
    assert_eq!(word_end(&text, 7), 7);
}

fn fields(line: &str) -> Vec<String> {
    let text = chars(line);
    field_spans(&text).iter().map(|&(from, to)| text[from..to].iter().collect()).collect()
}

#[test]
fn fields_are_the_runs_between_white_space() {
    assert_eq!(fields(""), Vec::<String>::new());
    assert_eq!(fields("   \t "), Vec::<String>::new());
    assert_eq!(fields("a"), vec!["a"]);
    assert_eq!(fields(" a"), vec!["a"]);
    assert_eq!(fields("a "), vec!["a"]);
    assert_eq!(fields("ab  cd\tef\r"), vec!["ab", "cd", "ef"]);
    assert_eq!(field_spans(&chars(" ab  c")), vec![(1, 3), (5, 6)]);
}

#[test]
fn fields_agree_with_the_standard_splitter() {
    let lines = [
        "COMMAND   PID USER   FD   TYPE             DEVICE SIZE/OFF NODE NAME",
        "node    12345 alice   23u  IPv4 0x1234567890abcdef      0t0  TCP 127.0.0.1:3000 (LISTEN)",
        "\u{a0}a\u{3000}b\u{2009}c\u{85}",
        "a\u{200b}b \u{feff}c",
        "x",
        "",
    ];
    for line in lines {
        let expected: Vec<String> = line.split_whitespace().map(|f| f.to_string()).collect();
        assert_eq!(fields(line), expected);
    }
}

#[test]
fn contains_finds_a_needle_anywhere() {
    assert!(contains(&chars("TCP"), &chars("TCP")));
    assert!(contains(&chars("xxTCP"), &chars("TCP")));
    assert!(contains(&chars("TCPxx"), &chars("TCP")));
    assert!(contains(&chars("TTCPP"), &chars("TCP")));
    assert!(contains(&chars("abc"), &chars("")));
    assert!(contains(&chars(""), &chars("")));
    assert!(!contains(&chars(""), &chars("TCP")));
    assert!(!contains(&chars("TC"), &chars("TCP")));
    assert!(!contains(&chars("TC P"), &chars("TCP")));
    assert!(!contains(&chars("tcp"), &chars("TCP")));
    assert!(!contains(&chars("PCT"), &chars("TCP")));
}

#[test]
fn contains_agrees_with_the_standard_search() {
    let hays = ["", "T", "TCP", "UDPTCP", "TCTCTCP", "IPv4", "aaab", "abab"];
    let needles = ["", "T", "TCP", "UDP", "ab", "aab", "b"];
    for hay in hays {
        for needle in needles {
            assert_eq!(contains(&chars(hay), &chars(needle)), hay.contains(needle));
        }
    }
}

#[test]
fn matches_at_compares_in_place() {
    assert!(matches_at(&chars("xTCPy"), &chars("TCP"), 1));
    assert!(!matches_at(&chars("xTCPy"), &chars("TCP"), 0));
    assert!(!matches_at(&chars("xTCPy"), &chars("TCP"), 2));
    assert!(matches_at(&chars("abc"), &chars(""), 3));
}

#[test]
fn digits_have_their_values() {
    assert_eq!(digit_value('0'), Some(0));
    assert_eq!(digit_value('7'), Some(7));
    assert_eq!(digit_value('9'), Some(9));
    assert_eq!(digit_value('/'), None);
    assert_eq!(digit_value(':'), None);
    assert_eq!(digit_value('a'), None);
    assert_eq!(digit_value('\u{660}'), None);
}

#[test]
fn unsigned_decimals_are_read() {
    assert_eq!(parse_u32(&chars("0")), Some(0));
    assert_eq!(parse_u32(&chars("12345")), Some(12345));
    assert_eq!(parse_u32(&chars("+7")), Some(7));
    assert_eq!(parse_u32(&chars("007")), Some(7));
    assert_eq!(parse_u32(&chars("4294967295")), Some(4294967295));
    assert_eq!(parse_u16(&chars("65535")), Some(65535));
    assert_eq!(parse_u16(&chars("8080")), Some(8080));
    assert_eq!(parse_decimal(&chars("18446744073709551615"), u64::MAX), Some(u64::MAX));
    assert_eq!(parse_decimal(&chars("10"), 10), Some(10));
}

#[test]
fn what_is_no_unsigned_decimal_is_refused() {
    for text in ["", "+", "-", "-1", "+-1", "++1", "1+", " 1", "1 ", "1.0", "0x10", "1e3", "\u{661}"] {
        assert_eq!(parse_u32(&chars(text)), None, "{:?}", text);
        assert_eq!(parse_u16(&chars(text)), None, "{:?}", text);
    }
    assert_eq!(parse_u32(&chars("4294967296")), None);
    assert_eq!(parse_u32(&chars("99999999999999999999999999")), None);
    assert_eq!(parse_u16(&chars("65536")), None);
    assert_eq!(parse_u16(&chars("000065536")), None);
    assert_eq!(parse_decimal(&chars("18446744073709551616"), u64::MAX), None);
    assert_eq!(parse_decimal(&chars("11"), 10), None);
    assert_eq!(parse_decimal(&chars("1"), 0), None);
    assert_eq!(parse_decimal(&chars("0"), 0), Some(0));
}

#[test]
fn reading_agrees_with_the_standard_parser() {
    let texts = [
        "", "0", "1", "+1", "-1", "+", "-", "00", "+00", "65535", "65536", "4294967295",
        "4294967296", "42949672950", "12a", "a12", "1 2", "+ 1", "\u{661}\u{662}", "1_000",
    ];
    for text in texts {
        assert_eq!(parse_u32(&chars(text)), text.parse::<u32>().ok(), "{:?}", text);
        assert_eq!(parse_u16(&chars(text)), text.parse::<u16>().ok(), "{:?}", text);
        assert_eq!(parse_decimal(&chars(text), u64::MAX), text.parse::<u64>().ok(), "{:?}", text);
    }
}

#[test]
fn numbers_are_written_in_decimal() {
    assert_eq!(decimal_string(0), "0");
    assert_eq!(decimal_string(9), "9");
    assert_eq!(decimal_string(10), "10");
    assert_eq!(decimal_string(65535), "65535");
    assert_eq!(decimal_string(1234567890), "1234567890");
    assert_eq!(decimal_string(u64::MAX), u64::MAX.to_string());
    for n in 0..2000u64 {
        assert_eq!(decimal_string(n), n.to_string());
    }
}

#[test]
fn written_numbers_read_back() {
    for n in [0u64, 1, 9, 10, 99, 100, 65535, 65536, 4294967295] {
        assert_eq!(parse_decimal(&chars(&decimal_string(n)), u64::MAX), Some(n));
    }
}
