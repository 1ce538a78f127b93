use ucd_codegen::error::{ParseError, ParseFailure};
use ucd_codegen::unicode_blocks::{Range, UnicodeBlock, UnicodeBlocks};

fn block(begin: u32, end: u32, name: &str) -> UnicodeBlock {
    UnicodeBlock { range: Range { begin, end }, name: name.to_string() }
}

#[test]
fn block_line_gives_range_and_name() {
    assert_eq!(
        UnicodeBlocks::parse_block("0000..007F; Basic Latin"),
        Ok(Some(block(0x0000, 0x007F, "Basic Latin")))
    );
}

#[test]
fn block_name_is_trimmed_on_both_sides() {
    assert_eq!(
        UnicodeBlocks::parse_block("0080..00FF;\t Latin-1 Supplement \u{3000}"),
        Ok(Some(block(0x80, 0xFF, "Latin-1 Supplement")))
    );
}

#[test]
fn block_bounds_may_be_in_either_case_and_signed() {
    assert_eq!(
        UnicodeBlocks::parse_block("+1f600..1F64f; Emoticons"),
        Ok(Some(block(0x1F600, 0x1F64F, "Emoticons")))
    );
}

#[test]
fn block_with_surrogate_begin_is_left_out() {
    assert_eq!(UnicodeBlocks::parse_block("D800..DB7F; High Surrogates"), Ok(None));
}

#[test]
fn block_with_surrogate_end_is_left_out() {
    assert_eq!(UnicodeBlocks::parse_block("D7B0..D800; Odd"), Ok(None));
}

#[test]
fn block_above_the_last_code_point_is_left_out() {
    assert_eq!(UnicodeBlocks::parse_block("110000..11FFFF; Beyond"), Ok(None));
}

#[test]
fn block_line_without_semicolon_is_an_error() {
    assert_eq!(UnicodeBlocks::parse_block("0000..007F Basic Latin"), Err(ParseError::BlockFields));
}

#[test]
fn block_line_with_two_semicolons_is_an_error() {
    assert_eq!(UnicodeBlocks::parse_block("0000..007F; Basic; Latin"), Err(ParseError::BlockFields));
}

#[test]
fn block_line_without_two_dots_is_an_error() {
    assert_eq!(UnicodeBlocks::parse_block("0000-007F; Basic Latin"), Err(ParseError::RangeBounds));
}

#[test]
fn block_line_with_three_bounds_is_an_error() {
    assert_eq!(UnicodeBlocks::parse_block("0000..007F..00FF; X"), Err(ParseError::RangeBounds));
}

#[test]
fn block_line_with_bad_digit_is_an_error() {
    assert_eq!(UnicodeBlocks::parse_block("00G0..007F; Basic Latin"), Err(ParseError::HexNumber));
    assert_eq!(UnicodeBlocks::parse_block("0000..; Basic Latin"), Err(ParseError::HexNumber));
    assert_eq!(UnicodeBlocks::parse_block("0000...007F; Basic Latin"), Err(ParseError::HexNumber));
    assert_eq!(UnicodeBlocks::parse_block("0000.. 007F; Basic Latin"), Err(ParseError::HexNumber));
}

#[test]
fn block_line_with_too_large_number_is_an_error() {
    assert_eq!(UnicodeBlocks::parse_block("0000..100000000; Huge"), Err(ParseError::HexNumber));
    assert_eq!(
        UnicodeBlocks::parse_block("0000..FFFFFFFF; Large"),
        Ok(None)
    );
}

#[test]
fn bad_digit_comes_before_surrogate() {
    assert_eq!(UnicodeBlocks::parse_block("D800..XYZ; High Surrogates"), Err(ParseError::HexNumber));
}

#[test]
fn blocks_keep_the_order_of_the_lines() {
    let lines = ["0000..007F; Basic Latin", "", "# note", "D800..DB7F; High Surrogates", "0080..00FF; Latin-1 Supplement"];
    assert_eq!(
        UnicodeBlocks::parse_blocks(&lines),
        Ok(vec![block(0, 0x7F, "Basic Latin"), block(0x80, 0xFF, "Latin-1 Supplement")])
    );
}

#[test]
fn first_broken_line_fails_the_table() {
    let lines = ["0000..007F; Basic Latin", "bad", "0080;00FF"];
    assert_eq!(
        UnicodeBlocks::parse_blocks(&lines),
        Err(ParseFailure { line: 1, error: ParseError::BlockFields })
    );
}

#[test]
fn table_is_read_from_text_with_header() {
    let text = "# Blocks-15.0.0.txt\n#Date: today\n#\n# Start Code..End Code; Block Name\r\n\n0000..007F; Basic Latin\r\n0080..00FF; Latin-1 Supplement\n\n# EOF\n";
    let table = UnicodeBlocks::from_text(text).unwrap();
    assert_eq!(table.0, vec![block(0, 0x7F, "Basic Latin"), block(0x80, 0xFF, "Latin-1 Supplement")]);
    assert_eq!(table.1, "Blocks-15.0.0.txt\nDate: today\n\nStart Code..End Code; Block Name\n");
}

#[test]
fn table_without_final_line_feed() {
    let table = UnicodeBlocks::from_text("0000..007F; Basic Latin").unwrap();
    assert_eq!(table.0, vec![block(0, 0x7F, "Basic Latin")]);
    assert_eq!(table.1, "");
}

#[test]
fn empty_text_is_an_empty_table() {
    let table = UnicodeBlocks::from_text("").unwrap();
    assert!(table.0.is_empty());
    assert_eq!(table.1, "");
}

#[test]
fn broken_line_of_text_is_reported_with_its_position() {
    let text = "# header\n0000..007F; Basic Latin\n\n0080..00FF Latin-1 Supplement\n";
    assert_eq!(
        UnicodeBlocks::from_text(text),
        Err(ParseFailure { line: 3, error: ParseError::BlockFields })
    );
}

#[test]
fn lone_carriage_return_stays_in_the_last_line() {
    assert_eq!(
        UnicodeBlocks::from_text("0000..007F; Basic Latin\r"),
        Ok(UnicodeBlocks(vec![block(0, 0x7F, "Basic Latin")], String::new()))
    );
    assert_eq!(
        UnicodeBlocks::from_text("0000..007F\r; Basic Latin"),
        Err(ParseFailure { line: 0, error: ParseError::HexNumber })
    );
}

#[test]
fn block_names_as_identifiers() {
    let b = block(0x80, 0xFF, "Latin-1 Supplement");
    assert_eq!(b.as_snake_case(), "latin_1_supplement");
    assert_eq!(b.as_upper_camel_case(), "LatinDash1Supplement");
    let b = block(0, 0x7F, "Basic Latin");
    assert_eq!(b.as_snake_case(), "basic_latin");
    assert_eq!(b.as_upper_camel_case(), "BasicLatin");
}

#[test]
fn range_includes_both_ends() {
    let r = Range { begin: 0x41, end: 0x5A };
    assert!(r.includes(0x41));
    assert!(r.includes(0x5A));
    assert!(!r.includes(0x40));
    assert!(!r.includes(0x5B));
}

#[test]
fn error_messages_differ() {
    let all = [ParseError::BlockFields, ParseError::RangeBounds, ParseError::HexNumber, ParseError::CharacterFields];
    for (i, a) in all.iter().enumerate() {
        for b in all.iter().skip(i + 1) {
            assert_ne!(a.message(), b.message());
        }
    }
}

#[test]
fn blocks_of_an_ordered_table_are_in_order_and_apart() {
    let text = "0000..007F; Basic Latin\n0080..00FF; Latin-1 Supplement\nD800..DB7F; High Surrogates\nE000..F8FF; Private Use Area\n10FFFF..10FFFF; Last\n";
    let table = UnicodeBlocks::from_text(text).unwrap();
    assert_eq!(table.0.len(), 4);
    for (i, one) in table.0.iter().enumerate() {
        assert!(one.range.begin <= one.range.end);
        for (j, other) in table.0.iter().enumerate() {
            if i != j {
                assert!(one.range.end < other.range.begin || other.range.end < one.range.begin);
            }
        }
    }
}

#[test]
fn table_is_read_whatever_its_ranges_are() {
    let text = "0010..0000; Backwards\n0000..007F; One\n0000..007F; Two\n";
    let table = UnicodeBlocks::from_text(text).unwrap();
    assert_eq!(
        table.0,
        vec![block(0x10, 0, "Backwards"), block(0, 0x7F, "One"), block(0, 0x7F, "Two")]
    );
}

#[test]
fn order_of_the_ranges_is_decided() {
    let table = |blocks: Vec<UnicodeBlock>| UnicodeBlocks(blocks, String::new());
    assert!(table(vec![]).is_in_order());
    assert!(table(vec![block(0, 0, "One")]).is_in_order());
    assert!(table(vec![block(0, 0x7F, "A"), block(0x80, 0xFF, "B"), block(0x1000, 0x1000, "C")]).is_in_order());
    assert!(!table(vec![block(1, 0, "Backwards")]).is_in_order());
    assert!(!table(vec![block(0, 0x7F, "A"), block(0x7F, 0xFF, "B")]).is_in_order());
    assert!(!table(vec![block(0x80, 0xFF, "B"), block(0, 0x7F, "A")]).is_in_order());
    assert!(!table(vec![block(0, 0x7F, "A"), block(0x80, 0xFF, "B"), block(0x90, 0x9F, "C")]).is_in_order());
    assert!(!table(vec![block(0, 0x7F, "A"), block(0x80, 0x7F, "B")]).is_in_order());
}
