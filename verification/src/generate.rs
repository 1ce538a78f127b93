//! The text that is rendered for a block: its documentation, the constants of its
//! characters, the enumeration of its characters and the conversions of the enumeration.

use crate::enumeration::{first_variant, successor};
use crate::error::{EmptyBlock, GenerateError};
use crate::hex::{format_hex, hex_digits};
use crate::names::{camel_text, constant_text, pretty_text, snake_text};
use crate::text::{lines_of, string_of};
use crate::unicode_blocks::{
    block_views, table_blocks, BlockView, Range, UnicodeBlock, UnicodeBlocks,
};
use crate::unicode_data::{
    keyed_by_code_point, printable_text, table_characters, CharacterView, UnicodeCharacter,
    UnicodeData,
};
use vstd::prelude::*;

verus! {

/// The views of the characters of `characters`.
pub open spec fn character_views(characters: Seq<UnicodeCharacter>) -> Seq<CharacterView> {
    Seq::new(characters.len(), |i: int| characters[i]@)
}

/// The members of `range` in `data` whose code points lie below `bound`, in the order of
/// their code points.
pub open spec fn members_below(range: Range, data: Map<u32, CharacterView>, bound: int) -> Seq<
    CharacterView,
>
    decreases bound - range.begin,
{
    if bound <= range.begin {
        Seq::empty()
    } else {
        let before = members_below(range, data, bound - 1);
        if data.contains_key((bound - 1) as u32) {
            before.push(data[(bound - 1) as u32])
        } else {
            before
        }
    }
}

/// The members of `range` in `data`: the characters whose code points lie in the range,
/// both ends included, in the order of their code points.
pub open spec fn members_of(range: Range, data: Map<u32, CharacterView>) -> Seq<CharacterView> {
    members_below(range, data, range.end + 1)
}

/// The characters of `data` whose code points lie in `range`, in the order of their code
/// points.
pub fn characters_in_range(range: &Range, data: &UnicodeData) -> (members: Vec<UnicodeCharacter>)
    ensures
        character_views(members@) == members_of(*range, data@),
{
    let mut members: Vec<UnicodeCharacter> = Vec::new();
    let mut next: u64 = range.begin as u64;
    proof {
        assert(character_views(members@) == Seq::<CharacterView>::empty());
    }
    while next <= range.end as u64
        invariant
            range.begin <= next <= range.end + 1 || (range.end < range.begin && next
                == range.begin),
            character_views(members@) == members_below(*range, data@, next as int),
        decreases range.end + 1 - next,
    {
        let code_point: u32 = next as u32;
        match data.0.get(&code_point) {
            Some(character) => {
                let member = character.clone();
                proof {
                    assert(character_views(members@.push(member)) == character_views(
                        members@,
                    ).push(member@));
                }
                members.push(member);
            },
            None => {},
        }
        next += 1;
    }
    members
}

/// Whether the code points of `members` rise from each member to the next.
pub open spec fn ascending(members: Seq<CharacterView>) -> bool {
    forall|i: int, j: int|
        #![trigger members[i], members[j]]
        0 <= i < j < members.len() ==> (members[i].character as u32) < (
        members[j].character as u32)
}

/// The members of a range in a table that is keyed by code point are the characters of the
/// table whose code points lie in the range: each of them once, in the rising order of
/// their code points.
pub proof fn lemma_members_below(range: Range, data: Map<u32, CharacterView>, bound: int)
    requires
        keyed_by_code_point(data),
        bound <= u32::MAX + 1,
    ensures
        ascending(members_below(range, data, bound)),
        forall|i: int|
            0 <= i < members_below(range, data, bound).len() ==> {
                let member = #[trigger] members_below(range, data, bound)[i];
                &&& range.begin <= (member.character as u32) < bound
                &&& data.contains_key(member.character as u32)
                &&& data[member.character as u32] == member
            },
        forall|code_point: u32|
            range.begin <= code_point < bound && #[trigger] data.contains_key(code_point)
                ==> members_below(range, data, bound).contains(data[code_point]),
    decreases bound - range.begin,
{
    if bound > range.begin {
        lemma_members_below(range, data, bound - 1);
        let before = members_below(range, data, bound - 1);
        let last = (bound - 1) as u32;
        if data.contains_key(last) {
            let all = before.push(data[last]);
            assert(all[before.len() as int] == data[last]);
            assert forall|code_point: u32|
                range.begin <= code_point < bound && #[trigger] data.contains_key(
                    code_point,
                ) implies all.contains(data[code_point]) by {
                if code_point < last {
                    let i = before.index_of(data[code_point]);
                    assert(all[i] == data[code_point]);
                }
            }
        }
    }
}

/// The members of a range in a table that is keyed by code point: each character of the
/// table whose code point lies in the range, both ends included, once and in the rising
/// order of the code points.
pub proof fn lemma_members_of(range: Range, data: Map<u32, CharacterView>)
    requires
        keyed_by_code_point(data),
    ensures
        ascending(members_of(range, data)),
        forall|i: int|
            0 <= i < members_of(range, data).len() ==> {
                let member = #[trigger] members_of(range, data)[i];
                &&& range.contains(member.character as u32)
                &&& data.contains_key(member.character as u32)
                &&& data[member.character as u32] == member
            },
        forall|code_point: u32|
            range.contains(code_point) && #[trigger] data.contains_key(code_point)
                ==> members_of(range, data).contains(data[code_point]),
{
    lemma_members_below(range, data, range.end + 1);
}

/// A code point as the rendered text escapes it: `\u{`, the number in base 16, and `}`.
pub open spec fn escaped_text(code_point: u32) -> Seq<char> {
    "\\u{"@ + hex_digits(code_point as nat) + "}"@
}

/// Escapes a code point.
pub fn escape_unicode(code_point: u32) -> (out: String)
    ensures
        out@ == escaped_text(code_point),
{
    let mut out = String::from_str("\\u{");
    out.append(string_of(&format_hex(code_point)).as_str());
    out.append("}");
    out
}

/// The line that documents one character: its escaped code point and the character.
pub open spec fn char_doc_text(c: CharacterView) -> Seq<char> {
    "    /// "@ + escaped_text(c.character as u32) + ": '"@ + printable_text(c.character)
        + "'\n"@
}

/// The line that documents one character.
pub fn generate_char_doc_comment(c: &UnicodeCharacter) -> (out: String)
    ensures
        out@ == char_doc_text(c@),
{
    let mut out = String::from_str("    /// ");
    out.append(escape_unicode(c.character as u32).as_str());
    out.append(": '");
    out.append(c.printable_character().as_str());
    out.append("'\n");
    out
}

/// The number of characters in a row of the grid that documents a block.
pub const COLUMNS: usize = 16;

/// One row of the grid, as far as it shows the members from position `lo` up to, not
/// including, position `hi`: the mark of a documentation line, then a space and the
/// character for each member.
pub open spec fn grid_row_text(members: Seq<CharacterView>, lo: int, hi: int) -> Seq<char>
    decreases hi - lo,
{
    if hi <= lo {
        "///"@
    } else {
        grid_row_text(members, lo, hi - 1) + " "@ + printable_text(members[hi - 1].character)
    }
}

/// Where the row with the number `row` ends: behind its sixteenth member, or behind the
/// last member.
pub open spec fn row_end(members: Seq<CharacterView>, row: int) -> int {
    if COLUMNS * (row + 1) <= members.len() {
        COLUMNS * (row + 1)
    } else {
        members.len() as int
    }
}

/// The first `rows` rows of the grid, each followed by a line feed.
pub open spec fn grid_text(members: Seq<CharacterView>, rows: int) -> Seq<char>
    decreases rows,
{
    if rows <= 0 {
        Seq::empty()
    } else {
        grid_text(members, rows - 1) + grid_row_text(
            members,
            COLUMNS * (rows - 1),
            row_end(members, rows - 1),
        ) + "\n"@
    }
}

/// The number of rows that the grid of `count` members has.
pub open spec fn grid_rows(count: nat) -> int {
    (count + COLUMNS - 1) / (COLUMNS as int)
}

/// The documentation of a block: its range, from the first code point to the last, and the
/// grid of its members, sixteen to a row.
pub open spec fn block_doc_text(block: BlockView, members: Seq<CharacterView>) -> Seq<char> {
    "/// "@ + escaped_text(block.range.begin) + " \u{2192} "@ + escaped_text(block.range.end)
        + "\\\n"@ + "///\\\n"@ + grid_text(members, grid_rows(members.len()))
}

/// One row of the grid.
fn generate_grid_row(characters: &[UnicodeCharacter], lo: usize, hi: usize) -> (out: String)
    requires
        lo <= hi <= characters@.len(),
    ensures
        out@ == grid_row_text(character_views(characters@), lo as int, hi as int),
{
    let mut out = String::from_str("///");
    let mut i: usize = lo;
    while i < hi
        invariant
            lo <= i <= hi <= characters@.len(),
            out@ == grid_row_text(character_views(characters@), lo as int, i as int),
        decreases hi - i,
    {
        out.append(" ");
        out.append(characters[i].printable_character().as_str());
        i += 1;
    }
    out
}

/// The grid that documents the members of a block.
fn generate_grid(characters: &[UnicodeCharacter]) -> (out: String)
    ensures
        out@ == grid_text(
            character_views(characters@),
            grid_rows(character_views(characters@).len()),
        ),
{
    let count = characters.len();
    let ghost members = character_views(characters@);
    let ghost mut row: int = 0;
    let mut out = String::new();
    let mut lo: usize = 0;
    while lo < count
        invariant
            count == characters@.len(),
            members == character_views(characters@),
            0 <= row <= grid_rows(count as nat),
            lo == row_end(members, row - 1),
            out@ == grid_text(members, row),
        decreases count - lo,
    {
        let hi = if count - lo >= COLUMNS {
            lo + COLUMNS
        } else {
            count
        };
        out.append(generate_grid_row(characters, lo, hi).as_str());
        out.append("\n");
        lo = hi;
        proof {
            row = row + 1;
        }
    }
    out
}

/// The documentation of a block.
pub fn generate_block_doc_comment(block: &UnicodeBlock, characters: &[UnicodeCharacter]) -> (out:
    String)
    ensures
        out@ == block_doc_text(block@, character_views(characters@)),
{
    let mut out = String::from_str("/// ");
    out.append(escape_unicode(block.range.begin).as_str());
    out.append(" \u{2192} ");
    out.append(escape_unicode(block.range.end).as_str());
    out.append("\\\n");
    out.append("///\\\n");
    out.append(generate_grid(characters).as_str());
    out
}

/// The tables of the rendered text that have one line for each member of the block.
#[derive(Debug, Clone, Copy, PartialEq, Eq, Structural)]
pub enum Table {
    /// The constants: each holds the character of a member.
    Constants,
    /// The variants of the enumeration.
    Variants,
    /// From a variant to its character.
    IntoChar,
    /// From a character to its variant.
    TryFromChar,
    /// From a variant to the variant of the next member.
    Successors,
    /// From a variant to the name of its character as it is displayed.
    Names,
}

/// A variant as the rendered text writes it: the name of the enumeration, two colons and
/// the name of the variant.
pub open spec fn variant_text(enum_name: Seq<char>, c: CharacterView) -> Seq<char> {
    enum_name + "::"@ + camel_text(c.name)
}

/// What follows the member at position `i`: the variant of its successor, or nothing
/// behind the last member.
pub open spec fn successor_text(enum_name: Seq<char>, members: Seq<CharacterView>, i: int) -> Seq<
    char,
> {
    match successor(members, i) {
        Some(next) => "Some("@ + variant_text(enum_name, members[next]) + ")"@,
        None => "None"@,
    }
}

/// The line of `table` for the member at position `i`.
pub open spec fn line_text(
    table: Table,
    enum_name: Seq<char>,
    members: Seq<CharacterView>,
    i: int,
) -> Seq<char> {
    let c = members[i];
    match table {
        Table::Constants => char_doc_text(c) + "    pub const "@ + constant_text(c.name)
            + ": char = '"@ + printable_text(c.character) + "';\n"@,
        Table::Variants => char_doc_text(c) + "    "@ + camel_text(c.name) + ",\n"@,
        Table::IntoChar => "            "@ + variant_text(enum_name, c) + " => "@
            + constant_text(c.name) + ",\n"@,
        Table::TryFromChar => "            "@ + constant_text(c.name) + " => Ok("@
            + variant_text(enum_name, c) + "),\n"@,
        Table::Successors => "            "@ + variant_text(enum_name, c) + " => "@
            + successor_text(enum_name, members, i) + ",\n"@,
        Table::Names => "            "@ + variant_text(enum_name, c) + " => \""@ + pretty_text(
            c.name,
        ) + "\",\n"@,
    }
}

/// The first `count` lines of `table`, in the order of the members.
pub open spec fn lines_text(
    table: Table,
    enum_name: Seq<char>,
    members: Seq<CharacterView>,
    count: int,
) -> Seq<char>
    decreases count,
{
    if count <= 0 {
        Seq::empty()
    } else {
        lines_text(table, enum_name, members, count - 1) + line_text(
            table,
            enum_name,
            members,
            count - 1,
        )
    }
}

/// The whole of `table`: one line for each member, in the order of the members.
pub open spec fn table_text(table: Table, enum_name: Seq<char>, members: Seq<CharacterView>) -> Seq<
    char,
> {
    lines_text(table, enum_name, members, members.len() as int)
}

/// A variant as the rendered text writes it.
fn generate_variant(enum_name: &str, c: &UnicodeCharacter) -> (out: String)
    ensures
        out@ == variant_text(enum_name@, c@),
{
    let mut out = String::from_str(enum_name);
    out.append("::");
    out.append(c.as_upper_camel_case().as_str());
    out
}

/// What follows the member at position `i`.
fn generate_successor(enum_name: &str, characters: &[UnicodeCharacter], i: usize) -> (out: String)
    requires
        i < characters@.len(),
    ensures
        out@ == successor_text(enum_name@, character_views(characters@), i as int),
{
    if i < characters.len() - 1 {
        let mut out = String::from_str("Some(");
        out.append(generate_variant(enum_name, &characters[i + 1]).as_str());
        out.append(")");
        out
    } else {
        String::from_str("None")
    }
}

/// The line of `table` for the member at position `i`.
pub fn generate_line(
    table: Table,
    enum_name: &str,
    characters: &[UnicodeCharacter],
    i: usize,
) -> (out: String)
    requires
        i < characters@.len(),
    ensures
        out@ == line_text(table, enum_name@, character_views(characters@), i as int),
{
    let c = &characters[i];
    match table {
        Table::Constants => {
            let mut out = generate_char_doc_comment(c);
            out.append("    pub const ");
            out.append(c.as_upper_snake_case().as_str());
            out.append(": char = '");
            out.append(c.printable_character().as_str());
            out.append("';\n");
            out
        },
        Table::Variants => {
            let mut out = generate_char_doc_comment(c);
            out.append("    ");
            out.append(c.as_upper_camel_case().as_str());
            out.append(",\n");
            out
        },
        Table::IntoChar => {
            let mut out = String::from_str("            ");
            out.append(generate_variant(enum_name, c).as_str());
            out.append(" => ");
            out.append(c.as_upper_snake_case().as_str());
            out.append(",\n");
            out
        },
        Table::TryFromChar => {
            let mut out = String::from_str("            ");
            out.append(c.as_upper_snake_case().as_str());
            out.append(" => Ok(");
            out.append(generate_variant(enum_name, c).as_str());
            out.append("),\n");
            out
        },
        Table::Successors => {
            let mut out = String::from_str("            ");
            out.append(generate_variant(enum_name, c).as_str());
            out.append(" => ");
            out.append(generate_successor(enum_name, characters, i).as_str());
            out.append(",\n");
            out
        },
        Table::Names => {
            let mut out = String::from_str("            ");
            out.append(generate_variant(enum_name, c).as_str());
            out.append(" => \"");
            out.append(c.as_pretty_name().as_str());
            out.append("\",\n");
            out
        },
    }
}

/// The whole of `table`.
pub fn generate_table(table: Table, enum_name: &str, characters: &[UnicodeCharacter]) -> (out:
    String)
    ensures
        out@ == table_text(table, enum_name@, character_views(characters@)),
{
    let mut out = String::new();
    let mut i: usize = 0;
    while i < characters.len()
        invariant
            i <= characters@.len(),
            out@ == lines_text(table, enum_name@, character_views(characters@), i as int),
        decreases characters@.len() - i,
    {
        out.append(generate_line(table, enum_name, characters, i).as_str());
        i += 1;
    }
    out
}

/// The module of constants of a block: the documentation of the block and one constant for
/// each member, named by the member's name and holding its character.
pub open spec fn constants_text(block: BlockView, members: Seq<CharacterView>) -> Seq<char> {
    block_doc_text(block, members) + "pub mod constants {\n"@ + table_text(
        Table::Constants,
        camel_text(block.name),
        members,
    ) + "}\n"@
}

/// The module of constants of a block.
pub fn generate_block_constants(block: &UnicodeBlock, characters: &[UnicodeCharacter]) -> (out:
    String)
    ensures
        out@ == constants_text(block@, character_views(characters@)),
{
    let enum_name = block.as_upper_camel_case();
    let mut out = generate_block_doc_comment(block, characters);
    out.append("pub mod constants {\n");
    out.append(generate_table(Table::Constants, enum_name.as_str(), characters).as_str());
    out.append("}\n");
    out
}

/// The enumeration of a block: the documentation of the block and one variant for each
/// member, named by the member's name in upper camel case.
pub open spec fn enum_text(block: BlockView, members: Seq<CharacterView>) -> Seq<char> {
    "\n"@ + block_doc_text(block, members)
        + "#[derive(Debug, Clone, Copy, Hash, PartialEq, Eq)]\n"@ + "pub enum "@ + camel_text(
        block.name,
    ) + " {\n"@ + table_text(Table::Variants, camel_text(block.name), members) + "}\n"@
}

/// The enumeration of a block.
pub fn generate_block_enum(block: &UnicodeBlock, characters: &[UnicodeCharacter]) -> (out: String)
    ensures
        out@ == enum_text(block@, character_views(characters@)),
{
    let enum_name = block.as_upper_camel_case();
    let mut out = String::from_str("\n");
    out.append(generate_block_doc_comment(block, characters).as_str());
    out.append("#[derive(Debug, Clone, Copy, Hash, PartialEq, Eq)]\n");
    out.append("pub enum ");
    out.append(enum_name.as_str());
    out.append(" {\n");
    out.append(generate_table(Table::Variants, enum_name.as_str(), characters).as_str());
    out.append("}\n");
    out
}

/// The conversion of a variant to its character: it holds for every variant.
pub open spec fn into_char_text(block: BlockView, members: Seq<CharacterView>) -> Seq<char> {
    "\n"@ + "impl Into<char> for "@ + camel_text(block.name) + " {\n"@
        + "    fn into(self) -> char {\n"@ + "        use constants::*;\n"@
        + "        match self {\n"@ + table_text(Table::IntoChar, camel_text(block.name), members)
        + "        }\n"@ + "    }\n"@ + "}\n"@
}

/// The conversion of a variant to its character.
pub fn generate_block_into_char(block: &UnicodeBlock, characters: &[UnicodeCharacter]) -> (out:
    String)
    ensures
        out@ == into_char_text(block@, character_views(characters@)),
{
    let enum_name = block.as_upper_camel_case();
    let mut out = String::from_str("\n");
    out.append("impl Into<char> for ");
    out.append(enum_name.as_str());
    out.append(" {\n");
    out.append("    fn into(self) -> char {\n");
    out.append("        use constants::*;\n");
    out.append("        match self {\n");
    out.append(generate_table(Table::IntoChar, enum_name.as_str(), characters).as_str());
    out.append("        }\n");
    out.append("    }\n");
    out.append("}\n");
    out
}

/// The conversion of a character to its variant: it fails, with the unit value as its
/// error, for every character that is no member of the block.
pub open spec fn try_from_char_text(block: BlockView, members: Seq<CharacterView>) -> Seq<char> {
    "\n"@ + "impl std::convert::TryFrom<char> for "@ + camel_text(block.name) + " {\n"@
        + "    type Error = ();\n"@
        + "    fn try_from(c: char) -> Result<Self, Self::Error> {\n"@
        + "        use constants::*;\n"@ + "        match c {\n"@ + table_text(
        Table::TryFromChar,
        camel_text(block.name),
        members,
    ) + "            _ => Err(()),\n"@ + "        }\n"@ + "    }\n"@ + "}\n"@
}

/// The conversion of a character to its variant.
pub fn generate_block_try_from_char(block: &UnicodeBlock, characters: &[UnicodeCharacter]) -> (out:
    String)
    ensures
        out@ == try_from_char_text(block@, character_views(characters@)),
{
    let enum_name = block.as_upper_camel_case();
    let mut out = String::from_str("\n");
    out.append("impl std::convert::TryFrom<char> for ");
    out.append(enum_name.as_str());
    out.append(" {\n");
    out.append("    type Error = ();\n");
    out.append("    fn try_from(c: char) -> Result<Self, Self::Error> {\n");
    out.append("        use constants::*;\n");
    out.append("        match c {\n");
    out.append(generate_table(Table::TryFromChar, enum_name.as_str(), characters).as_str());
    out.append("            _ => Err(()),\n");
    out.append("        }\n");
    out.append("    }\n");
    out.append("}\n");
    out
}

/// The conversion of a variant to its code point: the number of its character.
pub open spec fn into_u32_text(block: BlockView) -> Seq<char> {
    "\n"@ + "impl Into<u32> for "@ + camel_text(block.name) + " {\n"@
        + "    fn into(self) -> u32 {\n"@ + "        let c: char = self.into();\n"@
        + "        c as u32\n"@ + "    }\n"@ + "}\n"@
}

/// The conversion of a variant to its code point.
pub fn generate_block_into_u32(block: &UnicodeBlock) -> (out: String)
    ensures
        out@ == into_u32_text(block@),
{
    let mut out = String::from_str("\n");
    out.append("impl Into<u32> for ");
    out.append(block.as_upper_camel_case().as_str());
    out.append(" {\n");
    out.append("    fn into(self) -> u32 {\n");
    out.append("        let c: char = self.into();\n");
    out.append("        c as u32\n");
    out.append("    }\n");
    out.append("}\n");
    out
}

/// The conversion of a code point to its variant: by the character that has the code
/// point, and failing where there is none or where it is no member of the block.
pub open spec fn try_from_u32_text(block: BlockView) -> Seq<char> {
    "\n"@ + "impl std::convert::TryFrom<u32> for "@ + camel_text(block.name) + " {\n"@
        + "    type Error = ();\n"@
        + "    fn try_from(u: u32) -> Result<Self, Self::Error> {\n"@
        + "        if let Ok(c) = char::try_from(u) {\n"@ + "            Self::try_from(c)\n"@
        + "        } else {\n"@ + "            Err(())\n"@ + "        }\n"@ + "    }\n"@
        + "}\n"@
}

/// The conversion of a code point to its variant.
pub fn generate_block_try_from_u32(block: &UnicodeBlock) -> (out: String)
    ensures
        out@ == try_from_u32_text(block@),
{
    let mut out = String::from_str("\n");
    out.append("impl std::convert::TryFrom<u32> for ");
    out.append(block.as_upper_camel_case().as_str());
    out.append(" {\n");
    out.append("    type Error = ();\n");
    out.append("    fn try_from(u: u32) -> Result<Self, Self::Error> {\n");
    out.append("        if let Ok(c) = char::try_from(u) {\n");
    out.append("            Self::try_from(c)\n");
    out.append("        } else {\n");
    out.append("            Err(())\n");
    out.append("        }\n");
    out.append("    }\n");
    out.append("}\n");
    out
}

/// The iterator of the enumeration: from a variant it goes to the variant of the next
/// member, and it ends behind the last member.
pub open spec fn iterator_text(block: BlockView, members: Seq<CharacterView>) -> Seq<char> {
    "\n"@ + "impl Iterator for "@ + camel_text(block.name) + " {\n"@
        + "    type Item = Self;\n"@ + "    fn next(&mut self) -> Option<Self> {\n"@
        + "        let next = match self {\n"@ + table_text(
        Table::Successors,
        camel_text(block.name),
        members,
    ) + "        };\n"@ + "        if let Some(member) = next {\n"@
        + "            *self = member;\n"@ + "        }\n"@ + "        next\n"@ + "    }\n"@
        + "}\n"@
}

/// The iterator of the enumeration.
pub fn generate_block_iterator(block: &UnicodeBlock, characters: &[UnicodeCharacter]) -> (out:
    String)
    ensures
        out@ == iterator_text(block@, character_views(characters@)),
{
    let enum_name = block.as_upper_camel_case();
    let mut out = String::from_str("\n");
    out.append("impl Iterator for ");
    out.append(enum_name.as_str());
    out.append(" {\n");
    out.append("    type Item = Self;\n");
    out.append("    fn next(&mut self) -> Option<Self> {\n");
    out.append("        let next = match self {\n");
    out.append(generate_table(Table::Successors, enum_name.as_str(), characters).as_str());
    out.append("        };\n");
    out.append("        if let Some(member) = next {\n");
    out.append("            *self = member;\n");
    out.append("        }\n");
    out.append("        next\n");
    out.append("    }\n");
    out.append("}\n");
    out
}

/// The functions of the enumeration itself: `new`, which gives the variant of the member
/// with the lowest code point, and `name`, which gives the name of a variant's character as
/// it is displayed.
pub open spec fn enum_impl_text(block: BlockView, members: Seq<CharacterView>) -> Seq<char> {
    "\n"@ + "impl "@ + camel_text(block.name) + " {\n"@
        + "    /// The character with the lowest index in this unicode block\n"@
        + "    pub fn new() -> Self {\n"@ + "        "@ + variant_text(
        camel_text(block.name),
        members[first_variant(members).unwrap()],
    ) + "\n"@ + "    }\n"@ + "\n"@
        + "    /// The character's name, all lowercase and space-separated\n"@
        + "    pub fn name(&self) -> &str {\n"@ + "        match self {\n"@ + table_text(
        Table::Names,
        camel_text(block.name),
        members,
    ) + "        }\n"@ + "    }\n"@ + "}\n"@
}

/// The functions of the enumeration itself. The block has a member.
pub fn generate_block_enum_impl(block: &UnicodeBlock, characters: &[UnicodeCharacter]) -> (out:
    String)
    requires
        characters@.len() > 0,
    ensures
        out@ == enum_impl_text(block@, character_views(characters@)),
{
    let enum_name = block.as_upper_camel_case();
    let mut out = String::from_str("\n");
    out.append("impl ");
    out.append(enum_name.as_str());
    out.append(" {\n");
    out.append("    /// The character with the lowest index in this unicode block\n");
    out.append("    pub fn new() -> Self {\n");
    out.append("        ");
    out.append(generate_variant(enum_name.as_str(), &characters[0]).as_str());
    out.append("\n");
    out.append("    }\n");
    out.append("\n");
    out.append("    /// The character's name, all lowercase and space-separated\n");
    out.append("    pub fn name(&self) -> &str {\n");
    out.append("        match self {\n");
    out.append(generate_table(Table::Names, enum_name.as_str(), characters).as_str());
    out.append("        }\n");
    out.append("    }\n");
    out.append("}\n");
    out
}

/// The text of the module of a block: the constants, the enumeration, its conversions to
/// and from characters and code points, its iterator and its own functions.
pub open spec fn block_file_text(block: BlockView, members: Seq<CharacterView>) -> Seq<char> {
    constants_text(block, members) + enum_text(block, members) + into_char_text(block, members)
        + try_from_char_text(block, members) + into_u32_text(block) + try_from_u32_text(block)
        + iterator_text(block, members) + enum_impl_text(block, members)
}

/// Renders the module of a block with the members `characters`, given in the order of
/// their code points. A block without members has no module.
pub fn generate_block_file(block: &UnicodeBlock, characters: &[UnicodeCharacter]) -> (result:
    Option<String>)
    ensures
        result is None <==> characters@.len() == 0,
        result matches Some(text) ==> text@ == block_file_text(
            block@,
            character_views(characters@),
        ),
{
    if characters.len() == 0 {
        return None;
    }
    let mut out = generate_block_constants(block, characters);
    out.append(generate_block_enum(block, characters).as_str());
    out.append(generate_block_into_char(block, characters).as_str());
    out.append(generate_block_try_from_char(block, characters).as_str());
    out.append(generate_block_into_u32(block).as_str());
    out.append(generate_block_try_from_u32(block).as_str());
    out.append(generate_block_iterator(block, characters).as_str());
    out.append(generate_block_enum_impl(block, characters).as_str());
    Some(out)
}

/// One rendered file: its name and its text.
#[derive(Debug, PartialEq, Eq)]
pub struct Artifact {
    pub name: String,
    pub text: String,
}

/// What a rendered file is: the characters of its name and of its text.
pub struct ArtifactView {
    pub name: Seq<char>,
    pub text: Seq<char>,
}

impl View for Artifact {
    type V = ArtifactView;

    open spec fn view(&self) -> ArtifactView {
        ArtifactView { name: self.name@, text: self.text@ }
    }
}

/// The views of the files of `files`.
pub open spec fn artifact_views(files: Seq<Artifact>) -> Seq<ArtifactView> {
    Seq::new(files.len(), |i: int| files[i]@)
}

/// The file of the module of a block: it is named by the module, and holds the text of the
/// module.
pub open spec fn block_artifact(block: BlockView, members: Seq<CharacterView>) -> ArtifactView {
    ArtifactView { name: snake_text(block.name) + ".rs"@, text: block_file_text(block, members) }
}

/// The files of the first `count` blocks, in the order of the blocks, or the first of these
/// blocks that has no member.
pub open spec fn block_files(
    blocks: Seq<BlockView>,
    data: Map<u32, CharacterView>,
    count: int,
) -> Result<Seq<ArtifactView>, EmptyBlock>
    decreases count,
{
    if count <= 0 {
        Ok(Seq::empty())
    } else {
        match block_files(blocks, data, count - 1) {
            Err(failure) => Err(failure),
            Ok(files) => {
                let block = blocks[count - 1];
                let members = members_of(block.range, data);
                if members.len() == 0 {
                    Err(EmptyBlock { block: (count - 1) as usize })
                } else {
                    Ok(files.push(block_artifact(block, members)))
                }
            },
        }
    }
}

/// The files of the modules of all the blocks, in the order of the blocks. No file is
/// rendered where a block has no member.
pub open spec fn rendered_files(blocks: Seq<BlockView>, data: Map<u32, CharacterView>) -> Result<
    Seq<ArtifactView>,
    EmptyBlock,
> {
    block_files(blocks, data, blocks.len() as int)
}

/// Renders the files of the modules of all the blocks.
pub fn generate_block_files(blocks: &Vec<UnicodeBlock>, data: &UnicodeData) -> (result: Result<
    Vec<Artifact>,
    EmptyBlock,
>)
    ensures
        match result {
            Ok(files) => rendered_files(block_views(blocks@), data@) == Ok::<
                Seq<ArtifactView>,
                EmptyBlock,
            >(artifact_views(files@)),
            Err(failure) => rendered_files(block_views(blocks@), data@) == Err::<
                Seq<ArtifactView>,
                EmptyBlock,
            >(failure),
        },
{
    let mut files: Vec<Artifact> = Vec::new();
    let mut i: usize = 0;
    proof {
        assert(artifact_views(files@) == Seq::<ArtifactView>::empty());
    }
    while i < blocks.len()
        invariant
            i <= blocks@.len(),
            block_files(block_views(blocks@), data@, i as int) == Ok::<
                Seq<ArtifactView>,
                EmptyBlock,
            >(artifact_views(files@)),
        decreases blocks@.len() - i,
    {
        let block = &blocks[i];
        let members = characters_in_range(&block.range, data);
        match generate_block_file(block, members.as_slice()) {
            None => {
                proof {
                    lemma_render_failure_stays(
                        block_views(blocks@),
                        data@,
                        i + 1,
                        blocks@.len() as int,
                    );
                }
                return Err(EmptyBlock { block: i });
            },
            Some(text) => {
                let mut name = block.as_snake_case();
                name.append(".rs");
                let file = Artifact { name, text };
                proof {
                    assert(artifact_views(files@.push(file)) == artifact_views(files@).push(
                        file@,
                    ));
                }
                files.push(file);
            },
        }
        i += 1;
    }
    Ok(files)
}

/// The blocks fail to be rendered as soon as the first of them do, and with their failure.
pub proof fn lemma_render_failure_stays(
    blocks: Seq<BlockView>,
    data: Map<u32, CharacterView>,
    n: int,
    count: int,
)
    requires
        0 <= n <= count,
        block_files(blocks, data, n) is Err,
    ensures
        block_files(blocks, data, count) == block_files(blocks, data, n),
    decreases count - n,
{
    if n < count {
        lemma_render_failure_stays(blocks, data, n, count - 1);
    }
}

/// The entry of a block in the index: the documentation of the block and the declaration
/// of its module.
pub open spec fn index_entry_text(block: BlockView, data: Map<u32, CharacterView>) -> Seq<char> {
    block_doc_text(block, members_of(block.range, data)) + "pub mod "@ + snake_text(block.name)
        + ";\n\n"@
}

/// The entries of the first `count` blocks in the index, in the order of the blocks.
pub open spec fn index_text(
    blocks: Seq<BlockView>,
    data: Map<u32, CharacterView>,
    count: int,
) -> Seq<char>
    decreases count,
{
    if count <= 0 {
        Seq::empty()
    } else {
        index_text(blocks, data, count - 1) + index_entry_text(blocks[count - 1], data)
    }
}

/// The index: the file `mod.rs`, which lists the modules of all the blocks in the order of
/// the table, each with the documentation of its block.
pub open spec fn index_artifact(
    blocks: Seq<BlockView>,
    data: Map<u32, CharacterView>,
) -> ArtifactView {
    ArtifactView { name: "mod.rs"@, text: index_text(blocks, data, blocks.len() as int) }
}

/// Renders the index of the modules.
pub fn generate_mod_rs(blocks: &UnicodeBlocks, data: &UnicodeData) -> (index: Artifact)
    ensures
        index@ == index_artifact(blocks@.blocks, data@),
{
    let mut text = String::new();
    let mut i: usize = 0;
    while i < blocks.0.len()
        invariant
            i <= blocks.0@.len(),
            text@ == index_text(block_views(blocks.0@), data@, i as int),
        decreases blocks.0@.len() - i,
    {
        let block = &blocks.0[i];
        let members = characters_in_range(&block.range, data);
        let mut entry = generate_block_doc_comment(block, members.as_slice());
        entry.append("pub mod ");
        entry.append(block.as_snake_case().as_str());
        entry.append(";\n\n");
        text.append(entry.as_str());
        i += 1;
    }
    Artifact { name: String::from_str("mod.rs"), text }
}

/// What a run renders from the text of the table of blocks and the text of the table of
/// characters: the index and then the files of the blocks, in the order of the table of
/// blocks; or what stops the run - a broken line of the table of blocks, else a broken line
/// of the table of characters, else a block that cannot be rendered.
pub open spec fn generated(blocks_text: Seq<char>, data_text: Seq<char>) -> Result<
    Seq<ArtifactView>,
    GenerateError,
> {
    match table_blocks(lines_of(blocks_text)) {
        Err(failure) => Err(GenerateError::Blocks(failure)),
        Ok(blocks) => match table_characters(lines_of(data_text)) {
            Err(failure) => Err(GenerateError::Characters(failure)),
            Ok(data) => match rendered_files(blocks, data) {
                Err(failure) => Err(GenerateError::Render(failure)),
                Ok(files) => Ok(seq![index_artifact(blocks, data)] + files),
            },
        },
    }
}

/// Renders the index and the files of the blocks from the texts of the two tables. The
/// result depends on the two texts alone.
pub fn generate_unicode_types(blocks_text: &str, data_text: &str) -> (result: Result<
    Vec<Artifact>,
    GenerateError,
>)
    ensures
        match result {
            Ok(files) => generated(blocks_text@, data_text@) == Ok::<
                Seq<ArtifactView>,
                GenerateError,
            >(artifact_views(files@)),
            Err(error) => generated(blocks_text@, data_text@) == Err::<
                Seq<ArtifactView>,
                GenerateError,
            >(error),
        },
{
    let blocks = match UnicodeBlocks::from_text(blocks_text) {
        Err(failure) => {
            return Err(GenerateError::Blocks(failure));
        },
        Ok(blocks) => blocks,
    };
    let data = match UnicodeData::from_text(data_text) {
        Err(failure) => {
            return Err(GenerateError::Characters(failure));
        },
        Ok(data) => data,
    };
    let mut files = match generate_block_files(&blocks.0, &data) {
        Err(failure) => {
            return Err(GenerateError::Render(failure));
        },
        Ok(files) => files,
    };
    let index = generate_mod_rs(&blocks, &data);
    let ghost rendered = artifact_views(files@);
    files.insert(0, index);
    proof {
        assert(artifact_views(files@) == seq![index@] + rendered);
    }
    Ok(files)
}

/// Two runs on the same texts render the same files, or are stopped by the same fault.
pub proof fn lemma_runs_agree(
    blocks_text: Seq<char>,
    data_text: Seq<char>,
    other_blocks_text: Seq<char>,
    other_data_text: Seq<char>,
)
    requires
        blocks_text == other_blocks_text,
        data_text == other_data_text,
    ensures
        generated(blocks_text, data_text) == generated(other_blocks_text, other_data_text),
{
}

} // verus!
