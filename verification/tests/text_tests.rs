use deepseek_monitor::numeric::{float_literal, format_i32, parse_i32, parse_u64};
use deepseek_monitor::text::{replace_all, split_words, trim, white_space};

#[test]
fn replace_all_as_std() {
    for (s, p, r) in [
        ("aaaa", "aa", "b"),
        ("abcabc", "bc", ""),
        ("", "x", "y"),
        ("xyz", "xyz", "12"),
        ("aXbXc", "X", "--"),
        ("ab", "abc", "z"),
        ("黑风雷黑", "黑", "白"),
    ] {
        assert_eq!(replace_all(s, p, r), s.replace(p, r));
    }
}

#[test]
fn trim_as_std() {
    for s in ["  a b  ", "\t\n x\r\n", "", "   ", "\u{3000}token\u{a0}", "x", "\u{85}y\u{2029}"] {
        assert_eq!(trim(s), s.trim());
    }
}

#[test]
fn whitespace_as_std() {
    for c in [' ', '\t', '\u{b}', '\u{1680}', '\u{200a}', '\u{200b}', 'a', '\u{3000}', '\u{feff}'] {
        assert_eq!(white_space(c), c.is_whitespace(), "{:?}", c);
    }
}

#[test]
fn split_words_as_std() {
    for s in ["12 34", "  12\t\n-5  ", "", "one", "a  b   c", "\u{3000}x\u{3000}y"] {
        let expected: Vec<&str> = s.split_whitespace().collect();
        assert_eq!(split_words(s), expected);
    }
}

#[test]
fn parse_u64_as_std() {
    for s in ["0", "42", "+7", "-7", "", "+", "18446744073709551615", "18446744073709551616", "1 ", "0.5", "007", "٣"] {
        assert_eq!(parse_u64(s), s.parse::<u64>().ok(), "{:?}", s);
    }
}

#[test]
fn parse_i32_as_std() {
    for s in ["0", "-0", "+12", "-2147483648", "2147483647", "2147483648", "-2147483649", "-", "+", "", "1a", "--1"] {
        assert_eq!(parse_i32(s), s.parse::<i32>().ok(), "{:?}", s);
    }
}

#[test]
fn format_i32_as_std() {
    for v in [0, 7, -7, 10, 1234567, i32::MAX, i32::MIN] {
        assert_eq!(format_i32(v), v.to_string());
    }
}

#[test]
fn float_literal_as_std() {
    for s in [
        "0", "100.50", ".5", "5.", ".", "", "1e10", "1E-3", "1e", "e5", "+inf", "-Infinity", "NaN",
        "nan", "infinit", "1.2.3", "abc", " 1", "1 ", "0x10", "+", "-.5e+2", "1e+", "0.0005",
    ] {
        assert_eq!(float_literal(s), s.parse::<f64>().is_ok(), "{:?}", s);
    }
}
