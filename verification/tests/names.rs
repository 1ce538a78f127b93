use ucd_codegen::names::{upper_camel_identifier, upper_snake_constant, snake_identifier, pretty_display_name};

#[test]
fn camel_of_a_letter_name() {
    assert_eq!(upper_camel_identifier("LATIN CAPITAL LETTER A"), "LatinCapitalLetterA");
}

#[test]
fn camel_spells_dashes() {
    assert_eq!(upper_camel_identifier("HYPHEN-MINUS"), "HyphenDashMinus");
}

#[test]
fn constant_spells_dashes() {
    assert_eq!(upper_snake_constant("Hyphen-Minus sign"), "HYPHEN_DASH_MINUS_SIGN");
}

#[test]
fn snake_of_a_block_name() {
    assert_eq!(snake_identifier("Latin-1 Supplement"), "latin_1_supplement");
}

#[test]
fn pretty_name_is_lower_case() {
    assert_eq!(pretty_display_name("LATIN SMALL LETTER A"), "latin small letter a");
}

#[test]
fn identifiers_hold_no_space_and_no_dash() {
    for name in ["", " ", "-", "- -", "a b-c", "CJK COMPATIBILITY IDEOGRAPH-F900", " leading", "trailing-", "TWO  SPACES"] {
        for identifier in [upper_camel_identifier(name), upper_snake_constant(name), snake_identifier(name)] {
            assert!(!identifier.contains(' '), "{:?}", name);
            assert!(!identifier.contains('-'), "{:?}", name);
        }
    }
}

#[test]
fn camel_capitalizes_each_word() {
    assert_eq!(upper_camel_identifier("latin small letter a"), "LatinSmallLetterA");
    assert_eq!(upper_camel_identifier("CJK COMPATIBILITY IDEOGRAPH-F900"), "CjkCompatibilityIdeographDashF900");
    assert_eq!(upper_camel_identifier("TWO  SPACES "), "TwoSpaces");
    assert_eq!(upper_camel_identifier(""), "");
    assert_eq!(upper_camel_identifier("-"), "Dash");
    assert_eq!(upper_camel_identifier("\u{e9}COLE \u{c9}T\u{c9}"), "\u{e9}cole\u{c9}t\u{c9}");
}

#[test]
fn constant_and_snake_use_the_case_of_unicode() {
    assert_eq!(upper_snake_constant("\u{e9}t\u{e9} - stra\u{df}e"), "\u{c9}T\u{c9}__DASH__STRASSE");
    assert_eq!(snake_identifier("\u{c9}T\u{c9} FOO-BAR"), "\u{e9}t\u{e9}_foo_bar");
    assert_eq!(pretty_display_name("\u{c9}T\u{c9}"), "\u{e9}t\u{e9}");
}
