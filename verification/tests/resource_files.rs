use keysynth::number::{note_index, parse_i32};
use keysynth::resource::{keybind_fields, obj_line_values, obj_values, ressource_lines};
use keysynth::text::{chars_of, is_comment_line, is_white_char, line_fields};

fn strings(v: &[&str]) -> Vec<String> {
    v.iter().map(|s| s.to_string()).collect()
}

#[test]
fn comment_lines_start_with_hash() {
    assert!(is_comment_line("# a comment"));
    assert!(is_comment_line("#"));
    assert!(!is_comment_line(""));
    assert!(!is_comment_line(" # indented"));
    assert!(!is_comment_line("q 1 # trailing"));
    assert!(!is_comment_line("é#"));
}

#[test]
fn chars_of_keeps_every_char() {
    assert_eq!(chars_of("aé z"), vec!['a', 'é', ' ', 'z']);
    assert_eq!(chars_of(""), Vec::<char>::new());
}

#[test]
fn white_space_is_unicode_white_space() {
    for c in ['\t', '\n', '\u{b}', '\u{c}', '\r', ' ', '\u{85}', '\u{a0}', '\u{1680}', '\u{2000}', '\u{200a}', '\u{2028}', '\u{2029}', '\u{202f}', '\u{205f}', '\u{3000}'] {
        assert!(is_white_char(c), "{:?}", c);
    }
    for c in ['a', '#', '\u{200b}', '\u{180e}', '\0', '0'] {
        assert!(!is_white_char(c), "{:?}", c);
    }
    for n in 0u32..0x3100 {
        if let Some(c) = char::from_u32(n) {
            assert_eq!(is_white_char(c), c.is_whitespace(), "{:?}", c);
        }
    }
}

#[test]
fn fields_are_trimmed_then_split_at_spaces() {
    assert_eq!(line_fields("  a b "), strings(&["a", "b"]));
    assert_eq!(line_fields("a  b"), strings(&["a", "", "b"]));
    assert_eq!(line_fields(""), strings(&[""]));
    assert_eq!(line_fields("   "), strings(&[""]));
    assert_eq!(line_fields("\tq 3\r\n"), strings(&["q", "3"]));
    assert_eq!(line_fields("a\tb"), strings(&["a\tb"]));
    assert_eq!(line_fields("\u{3000}x y\u{a0}"), strings(&["x", "y"]));
    for line in ["x", " 1 2  3 ", "é  ü\tv", "\n", "a b c d e"] {
        let expected: Vec<String> = line.trim().split(" ").map(|s| s.to_string()).collect();
        assert_eq!(line_fields(line), expected);
    }
}

#[test]
fn resource_lines_skip_comments_in_order() {
    let lines = strings(&["# header", "a 1", "", "#", "b 2", " #not"]);
    assert_eq!(ressource_lines(&lines), strings(&["a 1", "", "b 2", " #not"]));
    assert_eq!(ressource_lines(&Vec::new()), Vec::<String>::new());
}

#[test]
fn obj_line_values_of_a_line() {
    assert_eq!(obj_line_values("# v 1 2"), Vec::<String>::new());
    assert_eq!(obj_line_values("1.0 2.0  3"), strings(&["1.0", "2.0", "3"]));
    assert_eq!(obj_line_values(""), Vec::<String>::new());
    assert_eq!(obj_line_values("  -0.5 0.25\n"), strings(&["-0.5", "0.25"]));
}

#[test]
fn obj_values_of_a_file() {
    let lines = strings(&["# triangle", "0.0 0.5 0.0 1.0 0.0 0.0", "", "0.5 -0.5 0.0  0.0 1.0 0.0"]);
    assert_eq!(
        obj_values(&lines),
        strings(&["0.0", "0.5", "0.0", "1.0", "0.0", "0.0", "0.5", "-0.5", "0.0", "0.0", "1.0", "0.0"])
    );
}

#[test]
fn keybind_fields_of_lines() {
    assert_eq!(keybind_fields("q 12"), Some(("q".to_string(), "12".to_string())));
    assert_eq!(keybind_fields(" Escape 3 extra\n"), Some(("Escape".to_string(), "3".to_string())));
    assert_eq!(keybind_fields("q  12"), Some(("q".to_string(), "".to_string())));
    assert_eq!(keybind_fields("q"), None);
    assert_eq!(keybind_fields(""), None);
}

#[test]
fn parse_i32_reads_decimal_numbers() {
    assert_eq!(parse_i32("12"), Some(12));
    assert_eq!(parse_i32("-12"), Some(-12));
    assert_eq!(parse_i32("+7"), Some(7));
    assert_eq!(parse_i32("007"), Some(7));
    assert_eq!(parse_i32("-0"), Some(0));
    assert_eq!(parse_i32("2147483647"), Some(i32::MAX));
    assert_eq!(parse_i32("-2147483648"), Some(i32::MIN));
}

#[test]
fn parse_i32_refuses_what_std_refuses() {
    for s in ["", "+", "-", "2147483648", "-2147483649", "1a", " 1", "1 ", "--1", "+-1", "١", "99999999999999999999", "0x10", "1_000"] {
        assert_eq!(parse_i32(s), None, "{:?}", s);
    }
    for s in ["0", "31", "-31", "+0", "0000000000012", "-2147483648", "2147483647", "123456789", "-99999999999999999999"] {
        assert_eq!(parse_i32(s), s.parse::<i32>().ok(), "{:?}", s);
    }
}

#[test]
fn note_index_casts_the_parsed_number() {
    assert_eq!(note_index("5"), Some(5));
    assert_eq!(note_index("31"), Some(31));
    assert_eq!(note_index("-1"), Some((-1i32) as usize));
    assert_eq!(note_index("x"), None);
}

#[test]
fn inserted_comment_lines_change_nothing() {
    let plain = strings(&["1 2", "q 3", "4"]);
    let commented = strings(&["# a", "1 2", "#", "# 9 9", "q 3", "4", "#5"]);
    assert_eq!(ressource_lines(&plain), ressource_lines(&commented));
    assert_eq!(obj_values(&plain), obj_values(&commented));
}

#[test]
fn inserted_blank_lines_add_no_values() {
    let plain = strings(&["1 2", "3"]);
    let spaced = strings(&["", "1 2", "   ", "\t", "3", "\u{3000}"]);
    assert_eq!(obj_values(&plain), obj_values(&spaced));
}
