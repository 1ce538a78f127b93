//! The table of characters: each line gives the code point of a character, its name, and
//! thirteen fields more.

use crate::error::{ParseError, ParseFailure};
use crate::hex::{hex_value, parse_hex};
use crate::names::{
    camel_text, constant_text, pretty_display_name, pretty_text, upper_camel_identifier,
    upper_snake_constant, uppercase_of,
};
use crate::scalar::is_scalar_value;
use crate::text::{
    chars_of, copy_range, free_of, lemma_replaced_stays_free_of, lines_of, pieces, replace_all,
    replaced, same_text, split, split_lines, string_of, views,
};
use std::collections::HashMap;
use vstd::prelude::*;

verus! {

/// A character with its name.
#[derive(Debug, PartialEq, Eq)]
pub struct UnicodeCharacter {
    pub character: char,
    pub name: String,
}

/// What a character of the table is: the character and the characters of its name.
pub struct CharacterView {
    pub character: char,
    pub name: Seq<char>,
}

impl View for UnicodeCharacter {
    type V = CharacterView;

    open spec fn view(&self) -> CharacterView {
        CharacterView { character: self.character, name: self.name@ }
    }
}

impl Clone for UnicodeCharacter {
    fn clone(&self) -> (copy: Self)
        ensures
            copy == *self,
    {
        UnicodeCharacter { character: self.character, name: self.name.clone() }
    }
}

/// How the rendered text writes `c` between single quotes: tab, line feed, carriage return,
/// single quote and backslash by their escape sequences, any other character as it is.
pub open spec fn printable_text(c: char) -> Seq<char> {
    if c == '\t' {
        seq!['\\', 't']
    } else if c == '\n' {
        seq!['\\', 'n']
    } else if c == '\r' {
        seq!['\\', 'r']
    } else if c == '\'' {
        seq!['\\', '\'']
    } else if c == '\\' {
        seq!['\\', '\\']
    } else {
        seq![c]
    }
}

/// The name of the constant for a character of a module: the constant's name without the
/// upper case of the module's name and the underscore behind it, wherever they occur.
pub open spec fn const_name_text(name: Seq<char>, mod_name: Seq<char>) -> Seq<char> {
    replaced(constant_text(name), uppercase_of(mod_name).push('_'), Seq::empty())
}

/// The name of the variant for a character of an enumeration: the name in upper camel case
/// without the enumeration's name, wherever it occurs.
pub open spec fn enum_variant_text(name: Seq<char>, enum_name: Seq<char>) -> Seq<char> {
    replaced(camel_text(name), enum_name, Seq::empty())
}

impl UnicodeCharacter {
    /// The name of the constant that holds the character.
    pub fn as_upper_snake_case(&self) -> (out: String)
        ensures
            out@ == constant_text(self@.name),
            free_of(out@, ' '),
            free_of(out@, '-'),
    {
        upper_snake_constant(self.name.as_str())
    }

    /// The name of the constant that holds the character in the module `mod_name`, in which
    /// the module's name is not said again.
    pub fn as_const_name(&self, mod_name: &str) -> (out: String)
        ensures
            out@ == const_name_text(self@.name, mod_name@),
            free_of(out@, ' '),
            free_of(out@, '-'),
    {
        let constant = self.as_upper_snake_case();
        let mut prefix = chars_of(mod_name.to_uppercase().as_str());
        prefix.push('_');
        proof {
            lemma_replaced_stays_free_of(constant@, prefix@, Seq::empty(), ' ', 0);
            lemma_replaced_stays_free_of(constant@, prefix@, Seq::empty(), '-', 0);
        }
        string_of(&replace_all(&chars_of(constant.as_str()), &prefix, &Vec::new()))
    }

    /// The name of the variant that stands for the character.
    pub fn as_upper_camel_case(&self) -> (out: String)
        ensures
            out@ == camel_text(self@.name),
            free_of(out@, ' '),
            free_of(out@, '-'),
    {
        upper_camel_identifier(self.name.as_str())
    }

    /// The name of the variant that stands for the character in the enumeration `enum_name`,
    /// in which the enumeration's name is not said again.
    pub fn as_enum_variant(&self, enum_name: &str) -> (out: String)
        ensures
            out@ == enum_variant_text(self@.name, enum_name@),
            free_of(out@, ' '),
            free_of(out@, '-'),
    {
        let variant = self.as_upper_camel_case();
        proof {
            lemma_replaced_stays_free_of(variant@, enum_name@, Seq::empty(), ' ', 0);
            lemma_replaced_stays_free_of(variant@, enum_name@, Seq::empty(), '-', 0);
        }
        string_of(&replace_all(&chars_of(variant.as_str()), &chars_of(enum_name), &Vec::new()))
    }

    /// The name of the character as it is displayed.
    pub fn as_pretty_name(&self) -> (out: String)
        ensures
            out@ == pretty_text(self@.name),
    {
        pretty_display_name(self.name.as_str())
    }

    /// The character as the rendered text writes it between single quotes.
    pub fn printable_character(&self) -> (out: String)
        ensures
            out@ == printable_text(self@.character),
    {
        let c = self.character;
        let mut out = String::new();
        if c == '\t' {
            out.push('\\');
            out.push('t');
        } else if c == '\n' {
            out.push('\\');
            out.push('n');
        } else if c == '\r' {
            out.push('\\');
            out.push('r');
        } else if c == '\'' {
            out.push('\\');
            out.push('\'');
        } else if c == '\\' {
            out.push('\\');
            out.push('\\');
        } else {
            out.push(c);
        }
        out
    }
}

/// The number of fields of a line of the character table.
pub const FIELDS: usize = 15;

/// The field that holds the name of a character.
pub const NAME_FIELD: usize = 1;

/// The field that holds the name that the character had before: the name of a control
/// character is taken from it.
pub const LEGACY_NAME_FIELD: usize = 10;

/// The names that the table writes in another way than the block they belong to: what is
/// written, and what is read in its place.
pub open spec fn name_corrections() -> Seq<(Seq<char>, Seq<char>)> {
    seq![("BOX DRAWINGS"@, "BOX DRAWING"@)]
}

/// `name` after each correction of `table`, in the order of the table: every occurrence of
/// what is written is replaced by what is read in its place.
pub open spec fn corrected(name: Seq<char>, table: Seq<(Seq<char>, Seq<char>)>) -> Seq<char>
    decreases table.len(),
{
    if table.len() == 0 {
        name
    } else {
        replaced(corrected(name, table.drop_last()), table.last().0, table.last().1)
    }
}

/// The name of a range of characters, which the table writes between angle brackets, in
/// plain words: without angle brackets and commas, with a space for every underscore, in
/// upper case.
pub open spec fn range_name(written: Seq<char>) -> Seq<char> {
    uppercase_of(
        replaced(
            replaced(
                replaced(replaced(written, seq!['_'], seq![' ']), seq![','], Seq::empty()),
                seq!['<'],
                Seq::empty(),
            ),
            seq!['>'],
            Seq::empty(),
        ),
    )
}

/// The name of the character of a line with the fields `fields`. A control character, which
/// the table names `<control>`, has the name of the legacy field, or `CONTROL` and its code
/// point as the table writes it where that field is empty. Another name between angle
/// brackets is put in plain words. Any other name is corrected by the table of corrections.
pub open spec fn repaired_name(fields: Seq<Seq<char>>) -> Seq<char> {
    let written = fields[NAME_FIELD as int];
    if written == "<control>"@ {
        if fields[LEGACY_NAME_FIELD as int].len() == 0 {
            "CONTROL "@ + fields[0]
        } else {
            fields[LEGACY_NAME_FIELD as int]
        }
    } else if written.len() > 0 && written[0] == '<' {
        range_name(written)
    } else {
        corrected(written, name_corrections())
    }
}

/// What a line of the character table says. `Ok(Some(..))` is the code point and the
/// character of a line of fifteen fields whose code point is a scalar value. `Ok(None)` is
/// such a line whose code point is a surrogate or lies above `10FFFF`: it is left out.
/// `Err(..)` is a line whose structure is broken.
pub open spec fn parsed_character(line: Seq<char>) -> Result<
    Option<(u32, CharacterView)>,
    ParseError,
> {
    let fields = pieces(line, seq![';']);
    if fields.len() != FIELDS {
        Err(ParseError::CharacterFields)
    } else {
        match hex_value(fields[0]) {
            None => Err(ParseError::HexNumber),
            Some(code_point) => if is_scalar_value(code_point) {
                Ok(
                    Some(
                        (
                            code_point,
                            CharacterView {
                                character: code_point as char,
                                name: repaired_name(fields),
                            },
                        ),
                    ),
                )
            } else {
                Ok(None)
            },
        }
    }
}

/// The characters that the lines of a character table give, by code point. Empty lines give
/// none. Where two lines give the same code point, the later one stands. The first line
/// whose structure is broken fails the whole table.
pub open spec fn table_characters(lines: Seq<Seq<char>>) -> Result<
    Map<u32, CharacterView>,
    ParseFailure,
>
    decreases lines.len(),
{
    if lines.len() == 0 {
        Ok(Map::empty())
    } else {
        match table_characters(lines.drop_last()) {
            Err(failure) => Err(failure),
            Ok(characters) => {
                let line = lines.last();
                if line.len() == 0 {
                    Ok(characters)
                } else {
                    match parsed_character(line) {
                        Err(error) => Err(
                            ParseFailure { line: (lines.len() - 1) as usize, error },
                        ),
                        Ok(Some((code_point, character))) => Ok(
                            characters.insert(code_point, character),
                        ),
                        Ok(None) => Ok(characters),
                    }
                }
            },
        }
    }
}

/// What is wrong with a line of the table: nothing with an empty line, else what is wrong
/// with the character it should give.
pub open spec fn line_fault(line: Seq<char>) -> Option<ParseError> {
    if line.len() == 0 {
        None
    } else {
        match parsed_character(line) {
            Err(error) => Some(error),
            Ok(_) => None,
        }
    }
}

/// Whether `failure` names the first line of `lines` with which something is wrong, and
/// says what.
pub open spec fn is_first_fault(lines: Seq<Seq<char>>, failure: ParseFailure) -> bool {
    &&& failure.line < lines.len()
    &&& line_fault(lines[failure.line as int]) == Some(failure.error)
    &&& forall|i: int| 0 <= i < failure.line ==> line_fault(#[trigger] lines[i]) is None
}

/// A table is read where nothing is wrong with any of its lines, and fails with its first
/// line with which something is wrong.
pub proof fn lemma_table_fails_at_first_fault(lines: Seq<Seq<char>>)
    requires
        lines.len() <= usize::MAX,
    ensures
        match table_characters(lines) {
            Ok(_) => forall|i: int|
                0 <= i < lines.len() ==> line_fault(#[trigger] lines[i]) is None,
            Err(failure) => is_first_fault(lines, failure),
        },
    decreases lines.len(),
{
    if lines.len() > 0 {
        let before = lines.drop_last();
        lemma_table_fails_at_first_fault(before);
        match table_characters(before) {
            Ok(_) => {
                assert forall|i: int| 0 <= i < before.len() implies line_fault(
                    #[trigger] lines[i],
                ) is None by {
                    assert(lines[i] == before[i]);
                }
            },
            Err(failure) => {
                assert(lines[failure.line as int] == before[failure.line as int]);
                assert forall|i: int| 0 <= i < failure.line implies line_fault(
                    #[trigger] lines[i],
                ) is None by {
                    assert(lines[i] == before[i]);
                }
            },
        }
    }
}

/// The table of characters, by code point.
#[derive(Debug)]
pub struct UnicodeData(pub HashMap<u32, UnicodeCharacter>);

impl View for UnicodeData {
    type V = Map<u32, CharacterView>;

    open spec fn view(&self) -> Map<u32, CharacterView> {
        self.0@.map_values(|c: UnicodeCharacter| c@)
    }
}

/// Whether every character of `characters` stands under its own code point.
pub open spec fn keyed_by_code_point(characters: Map<u32, CharacterView>) -> bool {
    forall|code_point: u32| #[trigger]
        characters.contains_key(code_point) ==> characters[code_point].character as u32
            == code_point
}

impl UnicodeData {
    /// Whether the table is well formed: every character stands under its own code point.
    pub open spec fn well_formed(&self) -> bool {
        keyed_by_code_point(self@)
    }
}

/// The characters that a table gives stand under their own code points.
pub proof fn lemma_table_keyed_by_code_point(lines: Seq<Seq<char>>)
    ensures
        table_characters(lines) matches Ok(characters) ==> keyed_by_code_point(characters),
    decreases lines.len(),
{
    if lines.len() > 0 {
        lemma_table_keyed_by_code_point(lines.drop_last());
    }
}

/// The character sequences of the pairs of `table`.
pub open spec fn pair_views(table: Seq<(Vec<char>, Vec<char>)>) -> Seq<(Seq<char>, Seq<char>)> {
    Seq::new(table.len(), |i: int| (table[i].0@, table[i].1@))
}

/// The table of corrections.
pub fn corrections() -> (table: Vec<(Vec<char>, Vec<char>)>)
    ensures
        pair_views(table@) == name_corrections(),
{
    let table = vec![(chars_of("BOX DRAWINGS"), chars_of("BOX DRAWING"))];
    proof {
        assert(pair_views(table@) == name_corrections());
    }
    table
}

/// Corrects `name` by each correction of `table`, in the order of the table.
pub fn correct(name: &Vec<char>, table: &Vec<(Vec<char>, Vec<char>)>) -> (out: Vec<char>)
    ensures
        out@ == corrected(name@, pair_views(table@)),
{
    let mut out = copy_range(name, 0, name.len());
    let mut i: usize = 0;
    proof {
        assert(name@.subrange(0, name@.len() as int) == name@);
    }
    while i < table.len()
        invariant
            i <= table@.len(),
            out@ == corrected(name@, pair_views(table@).take(i as int)),
        decreases table@.len() - i,
    {
        proof {
            let before = pair_views(table@).take(i as int);
            let after = pair_views(table@).take(i + 1);
            assert(after.drop_last() == before);
            assert(after.last() == (table@[i as int].0@, table@[i as int].1@));
        }
        out = replace_all(&out, &table[i].0, &table[i].1);
        i += 1;
    }
    proof {
        assert(pair_views(table@).take(i as int) == pair_views(table@));
    }
    out
}

/// Puts the name of a range of characters in plain words.
pub fn plain_range_name(written: &Vec<char>) -> (out: String)
    ensures
        out@ == range_name(written@),
{
    let line = vec!['_'];
    let space = vec![' '];
    let comma = vec![','];
    let open = vec!['<'];
    let close = vec!['>'];
    let nothing: Vec<char> = Vec::new();
    proof {
        assert(line@ == seq!['_']);
        assert(space@ == seq![' ']);
        assert(comma@ == seq![',']);
        assert(open@ == seq!['<']);
        assert(close@ == seq!['>']);
        assert(nothing@ == Seq::<char>::empty());
    }
    let spaced = replace_all(written, &line, &space);
    let listed = replace_all(&spaced, &comma, &nothing);
    let opened = replace_all(&listed, &open, &nothing);
    let plain = replace_all(&opened, &close, &nothing);
    string_of(&plain).as_str().to_uppercase()
}

/// The name of the character of a line of fifteen fields.
pub fn repair_name(fields: &Vec<Vec<char>>) -> (name: String)
    requires
        fields@.len() == FIELDS,
    ensures
        name@ == repaired_name(views(fields@)),
{
    let written = &fields[NAME_FIELD];
    proof {
        assert(views(fields@)[NAME_FIELD as int] == written@);
        assert(views(fields@)[LEGACY_NAME_FIELD as int] == fields@[LEGACY_NAME_FIELD as int]@);
        assert(views(fields@)[0] == fields@[0]@);
    }
    if same_text(written, &chars_of("<control>")) {
        let legacy = &fields[LEGACY_NAME_FIELD];
        if legacy.len() == 0 {
            let mut name = String::from_str("CONTROL ");
            name.append(string_of(&fields[0]).as_str());
            name
        } else {
            string_of(legacy)
        }
    } else if written.len() > 0 && written[0] == '<' {
        plain_range_name(written)
    } else {
        string_of(&correct(written, &corrections()))
    }
}

/// Reads one line of the character table.
pub fn read_character(line: &Vec<char>) -> (result: Result<
    Option<(u32, UnicodeCharacter)>,
    ParseError,
>)
    ensures
        match result {
            Ok(Some((code_point, character))) => parsed_character(line@) == Ok::<
                Option<(u32, CharacterView)>,
                ParseError,
            >(Some((code_point, character@))),
            Ok(None) => parsed_character(line@) == Ok::<Option<(u32, CharacterView)>, ParseError>(
                None,
            ),
            Err(error) => parsed_character(line@) == Err::<
                Option<(u32, CharacterView)>,
                ParseError,
            >(error),
        },
{
    let semicolon = vec![';'];
    proof {
        assert(semicolon@ == seq![';']);
    }
    let fields = split(line, &semicolon);
    if fields.len() != FIELDS {
        return Err(ParseError::CharacterFields);
    }
    proof {
        assert(views(fields@)[0] == fields@[0]@);
    }
    match parse_hex(&fields[0]) {
        None => Err(ParseError::HexNumber),
        Some(code_point) => match char::from_u32(code_point) {
            None => Ok(None),
            Some(character) => Ok(
                Some((code_point, UnicodeCharacter { character, name: repair_name(&fields) })),
            ),
        },
    }
}

impl UnicodeData {
    /// Reads one line of the character table: a code point and the character that has it.
    pub fn from_line(line: &str) -> (result: Result<Option<(u32, UnicodeCharacter)>, ParseError>)
        ensures
            match result {
                Ok(Some((code_point, character))) => parsed_character(line@) == Ok::<
                    Option<(u32, CharacterView)>,
                    ParseError,
                >(Some((code_point, character@))),
                Ok(None) => parsed_character(line@) == Ok::<
                    Option<(u32, CharacterView)>,
                    ParseError,
                >(None),
                Err(error) => parsed_character(line@) == Err::<
                    Option<(u32, CharacterView)>,
                    ParseError,
                >(error),
            },
    {
        read_character(&chars_of(line))
    }

    /// Reads a character table from the text of its file. The table is read where nothing
    /// is wrong with any line of the text; else the first line with which something is wrong
    /// fails it.
    pub fn from_text(contents: &str) -> (result: Result<UnicodeData, ParseFailure>)
        ensures
            match result {
                Ok(data) => table_characters(lines_of(contents@)) == Ok::<
                    Map<u32, CharacterView>,
                    ParseFailure,
                >(data@) && data.well_formed(),
                Err(failure) => table_characters(lines_of(contents@)) == Err::<
                    Map<u32, CharacterView>,
                    ParseFailure,
                >(failure) && is_first_fault(lines_of(contents@), failure),
            },
            result is Ok <==> forall|i: int|
                0 <= i < lines_of(contents@).len() ==> line_fault(
                    #[trigger] lines_of(contents@)[i],
                ) is None,
    {
        let lines = split_lines(&chars_of(contents));
        let mut characters: HashMap<u32, UnicodeCharacter> = HashMap::new();
        let mut i: usize = 0;
        proof {
            assert(characters@.map_values(|c: UnicodeCharacter| c@) == Map::<
                u32,
                CharacterView,
            >::empty());
        }
        while i < lines.len()
            invariant
                i <= lines@.len(),
                views(lines@) == lines_of(contents@),
                table_characters(views(lines@).take(i as int)) == Ok::<
                    Map<u32, CharacterView>,
                    ParseFailure,
                >(characters@.map_values(|c: UnicodeCharacter| c@)),
            decreases lines@.len() - i,
        {
            let line = &lines[i];
            proof {
                let before = views(lines@).take(i as int);
                let after = views(lines@).take(i + 1);
                assert(after.drop_last() == before);
                assert(after.last() == line@);
            }
            if line.len() > 0 {
                match read_character(line) {
                    Err(error) => {
                        proof {
                            lemma_failure_stays(views(lines@), i + 1);
                            lemma_table_fails_at_first_fault(views(lines@));
                        }
                        return Err(ParseFailure { line: i, error });
                    },
                    Ok(Some((code_point, character))) => {
                        proof {
                            assert(characters@.insert(code_point, character).map_values(
                                |c: UnicodeCharacter| c@,
                            ) == characters@.map_values(|c: UnicodeCharacter| c@).insert(
                                code_point,
                                character@,
                            ));
                        }
                        characters.insert(code_point, character);
                    },
                    Ok(None) => {},
                }
            }
            i += 1;
        }
        proof {
            assert(views(lines@).take(i as int) == views(lines@));
            lemma_table_keyed_by_code_point(views(lines@));
            lemma_table_fails_at_first_fault(views(lines@));
        }
        Ok(UnicodeData(characters))
    }
}

/// A table fails as soon as its first lines do, and with their failure.
pub proof fn lemma_failure_stays(lines: Seq<Seq<char>>, n: int)
    requires
        0 <= n <= lines.len(),
        table_characters(lines.take(n)) is Err,
    ensures
        table_characters(lines) == table_characters(lines.take(n)),
    decreases lines.len() - n,
{
    if n < lines.len() {
        assert(lines.take(n + 1).drop_last() == lines.take(n));
        lemma_failure_stays(lines, n + 1);
    } else {
        assert(lines.take(n) == lines);
    }
}

} // verus!
