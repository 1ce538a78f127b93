use ucd_codegen::error::{EmptyBlock, GenerateError, ParseError, ParseFailure};
use ucd_codegen::generate::{
    characters_in_range, escape_unicode, generate_block_constants, generate_block_doc_comment,
    generate_block_enum, generate_block_enum_impl, generate_block_file, generate_block_files,
    generate_block_into_char, generate_block_into_u32, generate_block_iterator,
    generate_block_try_from_char, generate_block_try_from_u32, generate_char_doc_comment,
    generate_line, generate_mod_rs, generate_table, generate_unicode_types, Artifact, Table,
};
use ucd_codegen::unicode_blocks::{Range, UnicodeBlock, UnicodeBlocks};
use ucd_codegen::unicode_data::{UnicodeCharacter, UnicodeData};

const LATIN_A: &str = "0041;LATIN CAPITAL LETTER A;Lu;0;L;;;;;N;;;;0061;";
const LATIN_B: &str = "0042;LATIN CAPITAL LETTER B;Lu;0;L;;;;;N;;;;0062;";
const HYPHEN: &str = "002D;HYPHEN-MINUS;Pd;0;ES;;;;;N;;;;;";

fn block(begin: u32, end: u32, name: &str) -> UnicodeBlock {
    UnicodeBlock { range: Range { begin, end }, name: name.to_string() }
}

fn character(c: char, name: &str) -> UnicodeCharacter {
    UnicodeCharacter { character: c, name: name.to_string() }
}

fn letters() -> Vec<UnicodeCharacter> {
    vec![character('A', "LATIN CAPITAL LETTER A"), character('B', "LATIN CAPITAL LETTER B")]
}

fn data(lines: &[&str]) -> UnicodeData {
    let mut text = String::new();
    for line in lines {
        text.push_str(line);
        text.push('\n');
    }
    UnicodeData::from_text(&text).unwrap()
}

const DOC: &str = "/// \\u{0} \u{2192} \\u{7f}\\\n///\\\n/// A B\n";

#[test]
fn code_points_are_escaped_in_base_16() {
    assert_eq!(escape_unicode(0), "\\u{0}");
    assert_eq!(escape_unicode(0x7F), "\\u{7f}");
    assert_eq!(escape_unicode(0x10FFFF), "\\u{10ffff}");
    assert_eq!(escape_unicode(0xD800), "\\u{d800}");
}

#[test]
fn escape_is_that_of_the_standard_library() {
    for c in ['\0', 'A', '\u{7f}', '\u{2192}', '\u{10FFFF}'] {
        assert_eq!(escape_unicode(c as u32), c.escape_unicode().to_string());
    }
}

#[test]
fn members_are_taken_in_order_with_both_ends() {
    let data = data(&[LATIN_B, HYPHEN, LATIN_A]);
    let range = Range { begin: 0x2D, end: 0x42 };
    assert_eq!(
        characters_in_range(&range, &data),
        vec![character('-', "HYPHEN-MINUS"), character('A', "LATIN CAPITAL LETTER A"), character('B', "LATIN CAPITAL LETTER B")]
    );
    let range = Range { begin: 0x2E, end: 0x41 };
    assert_eq!(characters_in_range(&range, &data), vec![character('A', "LATIN CAPITAL LETTER A")]);
    let range = Range { begin: 0x43, end: 0x10FFFF };
    assert_eq!(characters_in_range(&range, &data), vec![]);
}

#[test]
fn range_that_ends_before_it_begins_has_no_member() {
    let data = data(&[LATIN_A]);
    assert_eq!(characters_in_range(&Range { begin: 0x42, end: 0x41 }, &data), vec![]);
    assert_eq!(characters_in_range(&Range { begin: 0x42, end: 0 }, &data), vec![]);
}

#[test]
fn range_up_to_the_largest_number_ends() {
    let data = data(&[LATIN_A]);
    assert_eq!(characters_in_range(&Range { begin: u32::MAX - 3, end: u32::MAX }, &data), vec![]);
}

#[test]
fn character_is_documented_by_code_point_and_character() {
    assert_eq!(generate_char_doc_comment(&character('A', "LATIN CAPITAL LETTER A")), "    /// \\u{41}: 'A'\n");
    assert_eq!(generate_char_doc_comment(&character('\'', "APOSTROPHE")), "    /// \\u{27}: '\\''\n");
    assert_eq!(generate_char_doc_comment(&character('\t', "TAB")), "    /// \\u{9}: '\\t'\n");
}

#[test]
fn block_is_documented_by_range_and_grid() {
    assert_eq!(generate_block_doc_comment(&block(0, 0x7F, "Basic Latin"), &letters()), DOC);
}

#[test]
fn block_without_members_has_no_grid() {
    assert_eq!(
        generate_block_doc_comment(&block(0x80, 0xFF, "Latin-1 Supplement"), &[]),
        "/// \\u{80} \u{2192} \\u{ff}\\\n///\\\n"
    );
}

#[test]
fn grid_has_sixteen_columns() {
    let mut members = Vec::new();
    for i in 0..33u8 {
        members.push(character((b'A' + i) as char, "X"));
    }
    let expected = "/// \\u{41} \u{2192} \\u{61}\\\n///\\\n/// A B C D E F G H I J K L M N O P\n/// Q R S T U V W X Y Z [ \\\\ ] ^ _ `\n/// a\n";
    assert_eq!(generate_block_doc_comment(&block(0x41, 0x61, "Letters"), &members), expected);
    members.pop();
    let expected = "/// \\u{41} \u{2192} \\u{61}\\\n///\\\n/// A B C D E F G H I J K L M N O P\n/// Q R S T U V W X Y Z [ \\\\ ] ^ _ `\n";
    assert_eq!(generate_block_doc_comment(&block(0x41, 0x61, "Letters"), &members), expected);
}

#[test]
fn lines_of_the_tables() {
    let members = letters();
    assert_eq!(
        generate_line(Table::Constants, "BasicLatin", &members, 0),
        "    /// \\u{41}: 'A'\n    pub const LATIN_CAPITAL_LETTER_A: char = 'A';\n"
    );
    assert_eq!(
        generate_line(Table::Variants, "BasicLatin", &members, 1),
        "    /// \\u{42}: 'B'\n    LatinCapitalLetterB,\n"
    );
    assert_eq!(
        generate_line(Table::IntoChar, "BasicLatin", &members, 0),
        "            BasicLatin::LatinCapitalLetterA => LATIN_CAPITAL_LETTER_A,\n"
    );
    assert_eq!(
        generate_line(Table::TryFromChar, "BasicLatin", &members, 0),
        "            LATIN_CAPITAL_LETTER_A => Ok(BasicLatin::LatinCapitalLetterA),\n"
    );
    assert_eq!(
        generate_line(Table::Successors, "BasicLatin", &members, 0),
        "            BasicLatin::LatinCapitalLetterA => Some(BasicLatin::LatinCapitalLetterB),\n"
    );
    assert_eq!(
        generate_line(Table::Successors, "BasicLatin", &members, 1),
        "            BasicLatin::LatinCapitalLetterB => None,\n"
    );
    assert_eq!(
        generate_line(Table::Names, "BasicLatin", &members, 1),
        "            BasicLatin::LatinCapitalLetterB => \"latin capital letter b\",\n"
    );
}

#[test]
fn table_has_a_line_for_each_member() {
    let members = letters();
    assert_eq!(
        generate_table(Table::IntoChar, "E", &members),
        "            E::LatinCapitalLetterA => LATIN_CAPITAL_LETTER_A,\n            E::LatinCapitalLetterB => LATIN_CAPITAL_LETTER_B,\n"
    );
    assert_eq!(generate_table(Table::IntoChar, "E", &[]), "");
}

const CONSTANTS: &str = "pub mod constants {\n    /// \\u{41}: 'A'\n    pub const LATIN_CAPITAL_LETTER_A: char = 'A';\n    /// \\u{42}: 'B'\n    pub const LATIN_CAPITAL_LETTER_B: char = 'B';\n}\n";

const ENUM: &str = "#[derive(Debug, Clone, Copy, Hash, PartialEq, Eq)]\npub enum BasicLatin {\n    /// \\u{41}: 'A'\n    LatinCapitalLetterA,\n    /// \\u{42}: 'B'\n    LatinCapitalLetterB,\n}\n";

const INTO_CHAR: &str = "\nimpl Into<char> for BasicLatin {\n    fn into(self) -> char {\n        use constants::*;\n        match self {\n            BasicLatin::LatinCapitalLetterA => LATIN_CAPITAL_LETTER_A,\n            BasicLatin::LatinCapitalLetterB => LATIN_CAPITAL_LETTER_B,\n        }\n    }\n}\n";

const TRY_FROM_CHAR: &str = "\nimpl std::convert::TryFrom<char> for BasicLatin {\n    type Error = ();\n    fn try_from(c: char) -> Result<Self, Self::Error> {\n        use constants::*;\n        match c {\n            LATIN_CAPITAL_LETTER_A => Ok(BasicLatin::LatinCapitalLetterA),\n            LATIN_CAPITAL_LETTER_B => Ok(BasicLatin::LatinCapitalLetterB),\n            _ => Err(()),\n        }\n    }\n}\n";

const INTO_U32: &str = "\nimpl Into<u32> for BasicLatin {\n    fn into(self) -> u32 {\n        let c: char = self.into();\n        c as u32\n    }\n}\n";

const TRY_FROM_U32: &str = "\nimpl std::convert::TryFrom<u32> for BasicLatin {\n    type Error = ();\n    fn try_from(u: u32) -> Result<Self, Self::Error> {\n        if let Ok(c) = char::try_from(u) {\n            Self::try_from(c)\n        } else {\n            Err(())\n        }\n    }\n}\n";

const ITERATOR: &str = "\nimpl Iterator for BasicLatin {\n    type Item = Self;\n    fn next(&mut self) -> Option<Self> {\n        let next = match self {\n            BasicLatin::LatinCapitalLetterA => Some(BasicLatin::LatinCapitalLetterB),\n            BasicLatin::LatinCapitalLetterB => None,\n        };\n        if let Some(member) = next {\n            *self = member;\n        }\n        next\n    }\n}\n";

const ENUM_IMPL: &str = "\nimpl BasicLatin {\n    /// The character with the lowest index in this unicode block\n    pub fn new() -> Self {\n        BasicLatin::LatinCapitalLetterA\n    }\n\n    /// The character's name, all lowercase and space-separated\n    pub fn name(&self) -> &str {\n        match self {\n            BasicLatin::LatinCapitalLetterA => \"latin capital letter a\",\n            BasicLatin::LatinCapitalLetterB => \"latin capital letter b\",\n        }\n    }\n}\n";

fn whole_file() -> String {
    format!(
        "{}{}\n{}{}{}{}{}{}{}{}",
        DOC, CONSTANTS, DOC, ENUM, INTO_CHAR, TRY_FROM_CHAR, INTO_U32, TRY_FROM_U32, ITERATOR, ENUM_IMPL
    )
}

#[test]
fn constants_hold_the_characters() {
    let b = block(0, 0x7F, "Basic Latin");
    assert_eq!(generate_block_constants(&b, &letters()), format!("{}{}", DOC, CONSTANTS));
}

#[test]
fn enumeration_has_a_variant_for_each_member() {
    let b = block(0, 0x7F, "Basic Latin");
    assert_eq!(generate_block_enum(&b, &letters()), format!("\n{}{}", DOC, ENUM));
}

#[test]
fn conversions_are_tables_over_the_members() {
    let b = block(0, 0x7F, "Basic Latin");
    assert_eq!(generate_block_into_char(&b, &letters()), INTO_CHAR);
    assert_eq!(generate_block_try_from_char(&b, &letters()), TRY_FROM_CHAR);
    assert_eq!(generate_block_into_u32(&b), INTO_U32);
    assert_eq!(generate_block_try_from_u32(&b), TRY_FROM_U32);
    assert_eq!(generate_block_iterator(&b, &letters()), ITERATOR);
    assert_eq!(generate_block_enum_impl(&b, &letters()), ENUM_IMPL);
}

#[test]
fn module_of_a_block_holds_all_parts_in_order() {
    let b = block(0, 0x7F, "Basic Latin");
    assert_eq!(generate_block_file(&b, &letters()), Some(whole_file()));
}

#[test]
fn block_without_members_has_no_module() {
    let b = block(0, 0x7F, "Basic Latin");
    assert_eq!(generate_block_file(&b, &[]), None);
}

#[test]
fn files_are_named_by_their_modules() {
    let blocks = vec![block(0, 0x7F, "Basic Latin")];
    let data = data(&[LATIN_B, LATIN_A]);
    assert_eq!(
        generate_block_files(&blocks, &data),
        Ok(vec![Artifact { name: "basic_latin.rs".to_string(), text: whole_file() }])
    );
}

#[test]
fn first_block_without_members_stops_the_files() {
    let blocks = vec![block(0, 0x7F, "Basic Latin"), block(0x80, 0xFF, "Latin-1 Supplement"), block(0x100, 0x17F, "Latin Extended-A")];
    let data = data(&[LATIN_A]);
    assert_eq!(generate_block_files(&blocks, &data), Err(EmptyBlock { block: 1 }));
}

#[test]
fn index_lists_the_modules_in_the_order_of_the_table() {
    let table = UnicodeBlocks(
        vec![block(0, 0x7F, "Basic Latin"), block(0x80, 0xFF, "Latin-1 Supplement")],
        String::new(),
    );
    let data = data(&[LATIN_B, LATIN_A]);
    let index = generate_mod_rs(&table, &data);
    assert_eq!(index.name, "mod.rs");
    assert_eq!(
        index.text,
        format!("{}pub mod basic_latin;\n\n/// \\u{{80}} \u{2192} \\u{{ff}}\\\n///\\\npub mod latin_1_supplement;\n\n", DOC)
    );
}

#[test]
fn run_renders_the_index_and_then_the_blocks() {
    let blocks = "# Blocks\n0000..007F; Basic Latin\n# EOF\n";
    let characters = format!("{}\n{}\n", LATIN_A, LATIN_B);
    let files = generate_unicode_types(blocks, &characters).unwrap();
    assert_eq!(files.len(), 2);
    assert_eq!(files[0], Artifact { name: "mod.rs".to_string(), text: format!("{}pub mod basic_latin;\n\n", DOC) });
    assert_eq!(files[1], Artifact { name: "basic_latin.rs".to_string(), text: whole_file() });
}

#[test]
fn two_runs_on_the_same_texts_agree() {
    let blocks = "0000..007F; Basic Latin\n0080..00FF; Latin-1 Supplement\n";
    let characters = "0041;LATIN CAPITAL LETTER A;Lu;0;L;;;;;N;;;;0061;\n00E9;LATIN SMALL LETTER E WITH ACUTE;Ll;0;L;0065 0301;;;;N;LATIN SMALL LETTER E ACUTE;;00C9;;00C9\n002D;HYPHEN-MINUS;Pd;0;ES;;;;;N;;;;;\n";
    let first = generate_unicode_types(blocks, characters);
    let second = generate_unicode_types(blocks, characters);
    assert!(first.is_ok());
    assert_eq!(first, second);
}

#[test]
fn run_stops_at_a_broken_block_line_first() {
    assert_eq!(
        generate_unicode_types("0000..007F; Basic Latin\nbroken\n", "also broken\n"),
        Err(GenerateError::Blocks(ParseFailure { line: 1, error: ParseError::BlockFields }))
    );
}

#[test]
fn run_stops_at_a_block_without_members() {
    assert_eq!(
        generate_unicode_types("0000..007F; Basic Latin\n0080..00FF; Latin-1 Supplement\n", &format!("{}\n", LATIN_A)),
        Err(GenerateError::Render(EmptyBlock { block: 1 }))
    );
}

#[test]
fn basic_latin_has_a_variant_for_the_letter_a() {
    let blocks = "0000..007F; Basic Latin\n";
    let characters = "0041;LATIN CAPITAL LETTER A;Lu;0;L;;;;;N;;;;0061;\n0061;LATIN CAPITAL LETTER a;Ll;0;L;;;;;N;;;0041;;0041\n";
    let files = generate_unicode_types(blocks, characters).unwrap();
    assert_eq!(files.len(), 2);
    assert_eq!(files[1].name, "basic_latin.rs");
    let text = &files[1].text;
    assert!(text.contains("pub enum BasicLatin {\n    /// \\u{41}: 'A'\n    LatinCapitalLetterA,\n"));
    assert!(text.contains("    pub const LATIN_CAPITAL_LETTER_A: char = 'A';\n"));
    assert!(text.contains("            BasicLatin::LatinCapitalLetterA => LATIN_CAPITAL_LETTER_A,\n"));
    assert!(text.contains("            LATIN_CAPITAL_LETTER_A => Ok(BasicLatin::LatinCapitalLetterA),\n"));
    assert!(text.contains("    pub fn new() -> Self {\n        BasicLatin::LatinCapitalLetterA\n    }\n"));
}

#[test]
fn record_of_fourteen_fields_stops_the_run_before_any_output() {
    let blocks = "0000..007F; Basic Latin\n";
    let characters = "0041;LATIN CAPITAL LETTER A;Lu;0;L;;;;;N;;;;0061;\n0042;LATIN CAPITAL LETTER B;Lu;0;L;;;;;N;;;;0062\n";
    assert_eq!(
        generate_unicode_types(blocks, characters),
        Err(GenerateError::Characters(ParseFailure { line: 1, error: ParseError::CharacterFields }))
    );
}

#[test]
fn block_that_begins_with_a_surrogate_is_not_in_the_index() {
    let blocks = "0000..007F; Basic Latin\nD800..DB7F; High Surrogates\n";
    let characters = format!("{}\nD800;<Non Private Use High Surrogate, First>;Cs;0;L;;;;;N;;;;;\n", LATIN_A);
    let table = UnicodeBlocks::from_text(blocks).unwrap();
    assert_eq!(table.0, vec![block(0, 0x7F, "Basic Latin")]);
    let files = generate_unicode_types(blocks, &characters).unwrap();
    assert_eq!(files.len(), 2);
    assert_eq!(files[0].name, "mod.rs");
    assert_eq!(files[0].text, "/// \\u{0} \u{2192} \\u{7f}\\\n///\\\n/// A\npub mod basic_latin;\n\n");
    assert!(!files[0].text.contains("surrogates"));
    assert_eq!(files[1].name, "basic_latin.rs");
}

#[test]
fn large_tables_are_rendered() {
    let mut blocks = String::from("# Blocks\n");
    let mut characters = String::new();
    for b in 0..200u32 {
        let begin = 0x10000 + b * 0x100;
        blocks.push_str(&format!("{:04X}..{:04X}; Block Number-{}\n", begin, begin + 0xFF, b));
        for c in 0..100u32 {
            characters.push_str(&format!("{:04X};SIGN {}-{};So;0;ON;;;;;N;;;;;\n", begin + c * 2, b, c));
        }
    }
    let files = generate_unicode_types(&blocks, &characters).unwrap();
    assert_eq!(files.len(), 201);
    assert_eq!(files[0].name, "mod.rs");
    assert_eq!(files[200].name, "block_number_199.rs");
    assert!(files[200].text.contains("            BlockNumberDash199::Sign199Dash98 => Some(BlockNumberDash199::Sign199Dash99),\n"));
    assert!(files[200].text.contains("            BlockNumberDash199::Sign199Dash99 => None,\n"));
    assert!(files[200].text.contains("    pub const SIGN_199_DASH_0: char = '\u{1C700}';\n"));
}
