use ucd_codegen::hex::{digit_value, format_hex, parse_hex};
use ucd_codegen::scalar::{code_point, scalar_value};
use ucd_codegen::text::{
    chars_of, copy_range, has_match_at, replace_all, same_text, split, split_lines, string_of,
    to_ascii_lower, to_ascii_upper, trim, whitespace,
};

fn chars(s: &str) -> Vec<char> {
    s.chars().collect()
}

fn strings(v: Vec<Vec<char>>) -> Vec<String> {
    v.into_iter().map(|t| t.into_iter().collect()).collect()
}

#[test]
fn chars_and_strings_convert_both_ways() {
    assert_eq!(chars_of("a\u{2192}b"), vec!['a', '\u{2192}', 'b']);
    assert_eq!(string_of(&vec!['a', '\u{2192}', 'b']), "a\u{2192}b");
    assert_eq!(chars_of(""), Vec::<char>::new());
    assert_eq!(string_of(&Vec::new()), "");
}

#[test]
fn copy_range_takes_the_middle() {
    assert_eq!(copy_range(&chars("abcdef"), 1, 4), chars("bcd"));
    assert_eq!(copy_range(&chars("abcdef"), 2, 2), chars(""));
}

#[test]
fn match_is_found_where_it_is() {
    let s = chars("0000..007F");
    let dots = chars("..");
    assert!(has_match_at(&s, &dots, 4));
    assert!(!has_match_at(&s, &dots, 3));
    assert!(!has_match_at(&s, &dots, 9));
    assert!(!has_match_at(&s, &dots, usize::MAX));
    assert!(has_match_at(&s, &chars(""), 10));
    assert!(!has_match_at(&s, &chars(""), 11));
}

#[test]
fn same_text_compares_all_characters() {
    assert!(same_text(&chars("<control>"), &chars("<control>")));
    assert!(!same_text(&chars("<control>"), &chars("<control> ")));
    assert!(!same_text(&chars("<control>"), &chars("<Control>")));
    assert!(same_text(&chars(""), &chars("")));
}

#[test]
fn split_gives_one_piece_more_than_separators() {
    assert_eq!(strings(split(&chars("a;b;;c"), &chars(";"))), vec!["a", "b", "", "c"]);
    assert_eq!(strings(split(&chars(""), &chars(";"))), vec![""]);
    assert_eq!(strings(split(&chars(";"), &chars(";"))), vec!["", ""]);
    assert_eq!(strings(split(&chars("abc"), &chars(";"))), vec!["abc"]);
}

#[test]
fn split_takes_matches_from_the_left() {
    assert_eq!(strings(split(&chars("a...b"), &chars(".."))), vec!["a", ".b"]);
    assert_eq!(strings(split(&chars("a....b"), &chars(".."))), vec!["a", "", "b"]);
    assert_eq!(strings(split(&chars("a.b"), &chars(".."))), vec!["a.b"]);
}

#[test]
fn split_at_an_empty_pattern_is_one_piece() {
    assert_eq!(strings(split(&chars("abc"), &chars(""))), vec!["abc"]);
}

#[test]
fn replace_all_replaces_every_match() {
    assert_eq!(replace_all(&chars("a-b-c"), &chars("-"), &chars(" Dash ")), chars("a Dash b Dash c"));
    assert_eq!(replace_all(&chars("aaa"), &chars("aa"), &chars("b")), chars("ba"));
    assert_eq!(replace_all(&chars("abc"), &chars("abcd"), &chars("x")), chars("abc"));
    assert_eq!(replace_all(&chars("abc"), &chars(""), &chars("x")), chars("abc"));
    assert_eq!(replace_all(&chars("<a>"), &chars("<"), &chars("")), chars("a>"));
    assert_eq!(replace_all(&chars(""), &chars("a"), &chars("b")), chars(""));
}

#[test]
fn trim_removes_white_space_at_both_ends() {
    assert_eq!(trim(&chars("  Basic Latin\t\n")), chars("Basic Latin"));
    assert_eq!(trim(&chars(" \u{a0}\u{2003} ")), chars(""));
    assert_eq!(trim(&chars("x")), chars("x"));
    assert_eq!(trim(&chars("")), chars(""));
    assert_eq!(trim(&chars("\u{200b}x")), chars("\u{200b}x"));
}

#[test]
fn white_space_is_what_the_standard_library_says() {
    let mut u: u32 = 0;
    while u <= 0x10FFFF {
        if let Some(c) = char::from_u32(u) {
            assert_eq!(whitespace(c), c.is_whitespace(), "U+{:04X}", u);
        }
        u += 1;
    }
}

#[test]
fn ascii_case_is_what_the_standard_library_says() {
    let mut u: u32 = 0;
    while u <= 0x10FFFF {
        if let Some(c) = char::from_u32(u) {
            assert_eq!(to_ascii_lower(c), c.to_ascii_lowercase());
            assert_eq!(to_ascii_upper(c), c.to_ascii_uppercase());
        }
        u += 1;
    }
}

#[test]
fn lines_end_with_line_feeds() {
    assert_eq!(strings(split_lines(&chars("a\nb\r\nc"))), vec!["a", "b", "c"]);
    assert_eq!(strings(split_lines(&chars("a\nb\n"))), vec!["a", "b"]);
    assert_eq!(strings(split_lines(&chars("a\n\nb\n\n"))), vec!["a", "", "b", ""]);
    assert_eq!(strings(split_lines(&chars(""))), Vec::<String>::new());
    assert_eq!(strings(split_lines(&chars("\n"))), vec![""]);
}

#[test]
fn lines_keep_a_lone_carriage_return_at_the_end() {
    assert_eq!(strings(split_lines(&chars("foo\nbar\n\r\nbaz\r"))), vec!["foo", "bar", "", "baz\r"]);
    assert_eq!(strings(split_lines(&chars("a\r\r\nb"))), vec!["a\r", "b"]);
    assert_eq!(strings(split_lines(&chars("a\rb\n"))), vec!["a\rb"]);
}

#[test]
fn lines_are_those_of_the_standard_library() {
    for text in ["", "\n", "a", "a\n", "a\r\n", "a\r", "\r\n\r\n", "a\n\nb", "x\r\ny\rz\n\r", "\r"] {
        let expected: Vec<String> = text.lines().map(|l| l.to_string()).collect();
        assert_eq!(strings(split_lines(&chars(text))), expected, "{:?}", text);
    }
}

#[test]
fn hex_digits_have_their_values() {
    assert_eq!(digit_value('0'), Some(0));
    assert_eq!(digit_value('9'), Some(9));
    assert_eq!(digit_value('a'), Some(10));
    assert_eq!(digit_value('F'), Some(15));
    assert_eq!(digit_value('g'), None);
    assert_eq!(digit_value('/'), None);
    assert_eq!(digit_value(':'), None);
    assert_eq!(digit_value('@'), None);
    assert_eq!(digit_value('G'), None);
    assert_eq!(digit_value('`'), None);
}

#[test]
fn hex_numbers_are_read() {
    assert_eq!(parse_hex(&chars("0041")), Some(0x41));
    assert_eq!(parse_hex(&chars("10FFFF")), Some(0x10FFFF));
    assert_eq!(parse_hex(&chars("ffffffff")), Some(u32::MAX));
    assert_eq!(parse_hex(&chars("0000000000ffffffff")), Some(u32::MAX));
    assert_eq!(parse_hex(&chars("+1f")), Some(0x1F));
    assert_eq!(parse_hex(&chars("0")), Some(0));
}

#[test]
fn hex_numbers_are_refused() {
    assert_eq!(parse_hex(&chars("")), None);
    assert_eq!(parse_hex(&chars("+")), None);
    assert_eq!(parse_hex(&chars("-1")), None);
    assert_eq!(parse_hex(&chars("++1")), None);
    assert_eq!(parse_hex(&chars("1+")), None);
    assert_eq!(parse_hex(&chars("0x41")), None);
    assert_eq!(parse_hex(&chars(" 41")), None);
    assert_eq!(parse_hex(&chars("100000000")), None);
    assert_eq!(parse_hex(&chars("fffffffff")), None);
    assert_eq!(parse_hex(&chars("100000000g")), None);
}

#[test]
fn hex_numbers_are_read_as_the_standard_library_reads_them() {
    for text in ["", "+", "-", "0", "+0", "-0", "7f", "7F", "+7f", "ffffffff", "100000000", "0000000001", "1_0", "१"] {
        assert_eq!(parse_hex(&chars(text)), u32::from_str_radix(text, 16).ok(), "{:?}", text);
    }
}

#[test]
fn hex_numbers_are_written() {
    assert_eq!(format_hex(0), chars("0"));
    assert_eq!(format_hex(0x7f), chars("7f"));
    assert_eq!(format_hex(0x10FFFF), chars("10ffff"));
    assert_eq!(format_hex(u32::MAX), chars("ffffffff"));
    assert_eq!(format_hex(16), chars("10"));
}

#[test]
fn written_hex_numbers_are_read_back() {
    for n in [0u32, 1, 9, 10, 15, 16, 255, 256, 0xD7FF, 0xE000, 0x10FFFF, u32::MAX] {
        assert_eq!(parse_hex(&format_hex(n)), Some(n));
    }
}

#[test]
fn scalar_values_leave_out_surrogates() {
    assert!(scalar_value(0));
    assert!(scalar_value(0xD7FF));
    assert!(!scalar_value(0xD800));
    assert!(!scalar_value(0xDFFF));
    assert!(scalar_value(0xE000));
    assert!(scalar_value(0x10FFFF));
    assert!(!scalar_value(0x110000));
    assert_eq!(code_point('A'), 0x41);
}
