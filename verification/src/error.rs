//! What can be wrong with a table, and what can be wrong with a block when it is rendered.

use vstd::prelude::*;

verus! {

/// A fault in the structure of one line of a table.
#[derive(Debug, Clone, Copy, PartialEq, Eq, Structural)]
pub enum ParseError {
    /// A line of the block table is not made of two fields separated by a semicolon.
    BlockFields,
    /// The first field of a line of the block table is not made of two bounds separated by
    /// two full stops.
    RangeBounds,
    /// A code point is not written as a number in base 16 that fits in 32 bits.
    HexNumber,
    /// A line of the character table is not made of fifteen fields separated by semicolons.
    CharacterFields,
}

/// The first faulty line of a table.
#[derive(Debug, Clone, Copy, PartialEq, Eq, Structural)]
pub struct ParseFailure {
    /// The position of the line among the lines that were read, counted from zero.
    pub line: usize,
    /// What is wrong with it.
    pub error: ParseError,
}

/// A block without a character: its enumeration would have no lowest member, so that it
/// cannot be rendered.
#[derive(Debug, Clone, Copy, PartialEq, Eq, Structural)]
pub struct EmptyBlock {
    /// The position of the block in the table of blocks, counted from zero.
    pub block: usize,
}

/// What stops a run: a fault in one of the two tables, or a block that cannot be rendered.
#[derive(Debug, Clone, Copy, PartialEq, Eq, Structural)]
pub enum GenerateError {
    /// The table of blocks has a line whose structure is broken.
    Blocks(ParseFailure),
    /// The table of characters has a line whose structure is broken.
    Characters(ParseFailure),
    /// A block has no character.
    Render(EmptyBlock),
}

impl ParseError {
    /// The text that describes the fault.
    pub open spec fn message_text(self) -> Seq<char> {
        match self {
            ParseError::BlockFields => "expected a range and a name separated by ';'"@,
            ParseError::RangeBounds => "expected two code points separated by '..'"@,
            ParseError::HexNumber => "expected a code point in base 16"@,
            ParseError::CharacterFields => "expected 15 fields per character"@,
        }
    }

    /// A description of the fault for a reader.
    pub fn message(&self) -> (text: String)
        ensures
            text@ == self.message_text(),
    {
        match self {
            ParseError::BlockFields => String::from_str(
                "expected a range and a name separated by ';'",
            ),
            ParseError::RangeBounds => String::from_str(
                "expected two code points separated by '..'",
            ),
            ParseError::HexNumber => String::from_str("expected a code point in base 16"),
            ParseError::CharacterFields => String::from_str("expected 15 fields per character"),
        }
    }
}

} // verus!
