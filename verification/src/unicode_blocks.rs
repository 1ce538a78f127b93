//! The table of blocks: each line gives a range of code points and the name of the block.

use crate::error::{ParseError, ParseFailure};
use crate::hex::{hex_value, parse_hex};
use crate::names::{camel_text, snake_identifier, snake_text, upper_camel_identifier};
use crate::scalar::{is_scalar_value, scalar_value};
use crate::text::{
    chars_of, copy_range, free_of, has_match_at, lines_of, pieces, split, split_lines,
    string_of, trim, trimmed, views,
};
use vstd::prelude::*;

verus! {

/// The code points from `begin` to `end`, both included.
#[derive(Debug, Clone, Copy, PartialEq, Eq, Structural)]
pub struct Range {
    pub begin: u32,
    pub end: u32,
}

impl Range {
    /// Whether `code_point` lies in the range.
    pub open spec fn contains(self, code_point: u32) -> bool {
        self.begin <= code_point && code_point <= self.end
    }

    /// Whether the range and `other` have a code point in common.
    pub open spec fn overlaps(self, other: Range) -> bool {
        exists|code_point: u32| self.contains(code_point) && other.contains(code_point)
    }

    /// Whether both ends of the range are scalar values.
    pub open spec fn has_scalar_ends(self) -> bool {
        is_scalar_value(self.begin) && is_scalar_value(self.end)
    }

    /// Decides whether `code_point` lies in the range.
    pub fn includes(&self, code_point: u32) -> (b: bool)
        ensures
            b == self.contains(code_point),
    {
        self.begin <= code_point && code_point <= self.end
    }
}

/// A block: a range of code points with a name.
#[derive(Debug, PartialEq, Eq)]
pub struct UnicodeBlock {
    pub range: Range,
    pub name: String,
}

/// What a block is: its range and the characters of its name.
pub struct BlockView {
    pub range: Range,
    pub name: Seq<char>,
}

impl View for UnicodeBlock {
    type V = BlockView;

    open spec fn view(&self) -> BlockView {
        BlockView { range: self.range, name: self.name@ }
    }
}

impl UnicodeBlock {
    /// The name of the block in upper camel case: the name of the type that enumerates it.
    pub fn as_upper_camel_case(&self) -> (out: String)
        ensures
            out@ == camel_text(self@.name),
            free_of(out@, ' '),
            free_of(out@, '-'),
    {
        upper_camel_identifier(self.name.as_str())
    }

    /// The name of the block in snake case: the name of the module that holds it.
    pub fn as_snake_case(&self) -> (out: String)
        ensures
            out@ == snake_text(self@.name),
            free_of(out@, ' '),
            free_of(out@, '-'),
    {
        snake_identifier(self.name.as_str())
    }
}

/// What a line of the block table says. `Ok(Some(..))` is the block of a line that gives two
/// bounds, both scalar values, and a name, which is the second field without the white space
/// around it. `Ok(None)` is a line whose structure is sound and of whose bounds one is a
/// surrogate or lies above `10FFFF`: such a block is left out. `Err(..)` is a line whose
/// structure is broken.
pub open spec fn parsed_block(line: Seq<char>) -> Result<Option<BlockView>, ParseError> {
    let fields = pieces(line, seq![';']);
    if fields.len() != 2 {
        Err(ParseError::BlockFields)
    } else {
        let bounds = pieces(fields[0], seq!['.', '.']);
        if bounds.len() != 2 {
            Err(ParseError::RangeBounds)
        } else {
            match (hex_value(bounds[0]), hex_value(bounds[1])) {
                (Some(begin), Some(end)) => {
                    let range = Range { begin, end };
                    if range.has_scalar_ends() {
                        Ok(Some(BlockView { range, name: trimmed(fields[1]) }))
                    } else {
                        Ok(None)
                    }
                },
                _ => Err(ParseError::HexNumber),
            }
        }
    }
}

/// Whether a line of the block table is empty.
pub open spec fn is_blank(line: Seq<char>) -> bool {
    line.len() == 0
}

/// Whether a line of the block table is a comment: it begins with the mark `#`.
pub open spec fn is_comment(line: Seq<char>) -> bool {
    line.len() > 0 && line[0] == '#'
}

/// Whether a line of the block table is the comment that marks the end of the table.
pub open spec fn is_end_mark(line: Seq<char>) -> bool {
    line == seq!['#', ' ', 'E', 'O', 'F']
}

/// The text of a comment: the line without the mark and without one space behind the mark.
pub open spec fn comment_text(line: Seq<char>) -> Seq<char> {
    if line.len() > 1 && line[1] == ' ' {
        line.skip(2)
    } else {
        line.skip(1)
    }
}

/// The blocks that the lines of a block table give, in the order of the lines. Empty lines
/// and comments give none. The first line whose structure is broken fails the whole table.
pub open spec fn table_blocks(lines: Seq<Seq<char>>) -> Result<Seq<BlockView>, ParseFailure>
    decreases lines.len(),
{
    if lines.len() == 0 {
        Ok(Seq::empty())
    } else {
        match table_blocks(lines.drop_last()) {
            Err(failure) => Err(failure),
            Ok(blocks) => {
                let line = lines.last();
                if is_blank(line) || is_comment(line) {
                    Ok(blocks)
                } else {
                    match parsed_block(line) {
                        Err(error) => Err(
                            ParseFailure { line: (lines.len() - 1) as usize, error },
                        ),
                        Ok(Some(block)) => Ok(blocks.push(block)),
                        Ok(None) => Ok(blocks),
                    }
                }
            },
        }
    }
}

/// The header of a block table: the text of its comments, each followed by a line feed, but
/// for the comment that marks the end of the table.
pub open spec fn table_header(lines: Seq<Seq<char>>) -> Seq<char>
    decreases lines.len(),
{
    if lines.len() == 0 {
        Seq::empty()
    } else {
        let before = table_header(lines.drop_last());
        let line = lines.last();
        if is_comment(line) && !is_end_mark(line) {
            before + comment_text(line) + seq!['\n']
        } else {
            before
        }
    }
}

/// The views of the blocks of `blocks`.
pub open spec fn block_views(blocks: Seq<UnicodeBlock>) -> Seq<BlockView> {
    Seq::new(blocks.len(), |i: int| blocks[i]@)
}

/// The character sequences of the strings of `lines`.
pub open spec fn str_views(lines: Seq<&str>) -> Seq<Seq<char>> {
    Seq::new(lines.len(), |i: int| lines[i]@)
}

/// The table of blocks: the blocks in the order of the table, and the header of the table.
#[derive(Debug, PartialEq, Eq)]
pub struct UnicodeBlocks(pub Vec<UnicodeBlock>, pub String);

/// What a table of blocks is: its blocks and the characters of its header.
pub struct TableView {
    pub blocks: Seq<BlockView>,
    pub header: Seq<char>,
}

impl View for UnicodeBlocks {
    type V = TableView;

    open spec fn view(&self) -> TableView {
        TableView { blocks: block_views(self.0@), header: self.1@ }
    }
}

/// Reads one line of the block table.
pub fn read_block(line: &Vec<char>) -> (result: Result<Option<UnicodeBlock>, ParseError>)
    ensures
        match result {
            Ok(Some(block)) => parsed_block(line@) == Ok::<Option<BlockView>, ParseError>(
                Some(block@),
            ),
            Ok(None) => parsed_block(line@) == Ok::<Option<BlockView>, ParseError>(None),
            Err(error) => parsed_block(line@) == Err::<Option<BlockView>, ParseError>(error),
        },
{
    let semicolon = vec![';'];
    let dots = vec!['.', '.'];
    proof {
        assert(semicolon@ == seq![';']);
        assert(dots@ == seq!['.', '.']);
    }
    let fields = split(line, &semicolon);
    if fields.len() != 2 {
        return Err(ParseError::BlockFields);
    }
    let bounds = split(&fields[0], &dots);
    if bounds.len() != 2 {
        return Err(ParseError::RangeBounds);
    }
    proof {
        assert(views(fields@)[0] == fields@[0]@);
        assert(views(fields@)[1] == fields@[1]@);
        assert(views(bounds@)[0] == bounds@[0]@);
        assert(views(bounds@)[1] == bounds@[1]@);
    }
    let begin = parse_hex(&bounds[0]);
    let end = parse_hex(&bounds[1]);
    match (begin, end) {
        (Some(begin), Some(end)) => {
            if scalar_value(begin) && scalar_value(end) {
                let name = string_of(&trim(&fields[1]));
                Ok(Some(UnicodeBlock { range: Range { begin, end }, name }))
            } else {
                Ok(None)
            }
        },
        _ => Err(ParseError::HexNumber),
    }
}

/// Reads the lines of a block table.
pub fn read_blocks(lines: &Vec<Vec<char>>) -> (result: Result<Vec<UnicodeBlock>, ParseFailure>)
    ensures
        match result {
            Ok(blocks) => table_blocks(views(lines@)) == Ok::<Seq<BlockView>, ParseFailure>(
                block_views(blocks@),
            ),
            Err(failure) => table_blocks(views(lines@)) == Err::<Seq<BlockView>, ParseFailure>(
                failure,
            ),
        },
{
    let mut blocks: Vec<UnicodeBlock> = Vec::new();
    let mut i: usize = 0;
    proof {
        assert(block_views(blocks@) == Seq::<BlockView>::empty());
    }
    while i < lines.len()
        invariant
            i <= lines@.len(),
            table_blocks(views(lines@).take(i as int)) == Ok::<Seq<BlockView>, ParseFailure>(
                block_views(blocks@),
            ),
        decreases lines@.len() - i,
    {
        let line = &lines[i];
        proof {
            let before = views(lines@).take(i as int);
            let after = views(lines@).take(i + 1);
            assert(after.drop_last() == before);
            assert(after.last() == line@);
        }
        if line.len() > 0 && line[0] != '#' {
            match read_block(line) {
                Err(error) => {
                    proof {
                        lemma_failure_stays(views(lines@), i + 1);
                    }
                    return Err(ParseFailure { line: i, error });
                },
                Ok(Some(block)) => {
                    proof {
                        assert(block_views(blocks@.push(block)) == block_views(blocks@).push(
                            block@,
                        ));
                    }
                    blocks.push(block);
                },
                Ok(None) => {},
            }
        }
        i += 1;
    }
    proof {
        assert(views(lines@).take(i as int) == views(lines@));
    }
    Ok(blocks)
}

/// A table fails as soon as its first lines do, and with their failure.
pub proof fn lemma_failure_stays(lines: Seq<Seq<char>>, n: int)
    requires
        0 <= n <= lines.len(),
        table_blocks(lines.take(n)) is Err,
    ensures
        table_blocks(lines) == table_blocks(lines.take(n)),
    decreases lines.len() - n,
{
    if n < lines.len() {
        assert(lines.take(n + 1).drop_last() == lines.take(n));
        lemma_failure_stays(lines, n + 1);
    } else {
        assert(lines.take(n) == lines);
    }
}

/// What is wrong with a line of the table: nothing with an empty line or a comment, else
/// what is wrong with the block it should give.
pub open spec fn line_fault(line: Seq<char>) -> Option<ParseError> {
    if is_blank(line) || is_comment(line) {
        None
    } else {
        match parsed_block(line) {
            Err(error) => Some(error),
            Ok(_) => None,
        }
    }
}

/// Whether `failure` names the first line of `lines` with which something is wrong, and
/// says what.
pub open spec fn is_first_fault(lines: Seq<Seq<char>>, failure: ParseFailure) -> bool {
    &&& failure.line < lines.len()
    &&& line_fault(lines[failure.line as int]) == Some(failure.error)
    &&& forall|i: int| 0 <= i < failure.line ==> line_fault(#[trigger] lines[i]) is None
}

/// A table is read where nothing is wrong with any of its lines, and fails with its first
/// line with which something is wrong.
pub proof fn lemma_table_fails_at_first_fault(lines: Seq<Seq<char>>)
    requires
        lines.len() <= usize::MAX,
    ensures
        match table_blocks(lines) {
            Ok(_) => forall|i: int|
                0 <= i < lines.len() ==> line_fault(#[trigger] lines[i]) is None,
            Err(failure) => is_first_fault(lines, failure),
        },
    decreases lines.len(),
{
    if lines.len() > 0 {
        let before = lines.drop_last();
        lemma_table_fails_at_first_fault(before);
        match table_blocks(before) {
            Ok(_) => {
                assert forall|i: int| 0 <= i < before.len() implies line_fault(
                    #[trigger] lines[i],
                ) is None by {
                    assert(lines[i] == before[i]);
                }
            },
            Err(failure) => {
                assert(lines[failure.line as int] == before[failure.line as int]);
                assert forall|i: int| 0 <= i < failure.line implies line_fault(
                    #[trigger] lines[i],
                ) is None by {
                    assert(lines[i] == before[i]);
                }
            },
        }
    }
}

/// The block that a line of the table gives: none for an empty line, for a comment, for a
/// line whose structure is broken and for a line whose block is left out.
pub open spec fn line_block(line: Seq<char>) -> Option<BlockView> {
    if is_blank(line) || is_comment(line) {
        None
    } else {
        match parsed_block(line) {
            Ok(Some(block)) => Some(block),
            _ => None,
        }
    }
}

/// Whether the ranges of `blocks` are in order and apart: no range ends before it begins,
/// and no two ranges have a code point in common.
pub open spec fn ranges_apart(blocks: Seq<BlockView>) -> bool {
    &&& forall|i: int|
        0 <= i < blocks.len() ==> (#[trigger] blocks[i]).range.begin <= blocks[i].range.end
    &&& forall|i: int, j: int|
        0 <= i < blocks.len() && 0 <= j < blocks.len() && i != j ==> !(
        #[trigger] blocks[i]).range.overlaps((#[trigger] blocks[j]).range)
}

/// Whether the ranges of `blocks` rise: no range ends before it begins, and each range ends
/// before every later range begins.
pub open spec fn ranges_rise(blocks: Seq<BlockView>) -> bool {
    &&& forall|i: int|
        0 <= i < blocks.len() ==> (#[trigger] blocks[i]).range.begin <= blocks[i].range.end
    &&& forall|i: int, j: int|
        0 <= i < j < blocks.len() ==> (#[trigger] blocks[i]).range.end < (
        #[trigger] blocks[j]).range.begin
}

/// Ranges that rise are in order and apart.
pub proof fn lemma_rising_ranges_are_apart(blocks: Seq<BlockView>)
    requires
        ranges_rise(blocks),
    ensures
        ranges_apart(blocks),
{
    assert forall|i: int, j: int|
        0 <= i < blocks.len() && 0 <= j < blocks.len() && i != j implies !(
    #[trigger] blocks[i]).range.overlaps((#[trigger] blocks[j]).range) by {
        if i < j {
            assert(blocks[i].range.end < blocks[j].range.begin);
        } else {
            assert(blocks[j].range.end < blocks[i].range.begin);
        }
    }
}

/// The position of the line that gives the block at position `k` of the table.
pub open spec fn source_line(lines: Seq<Seq<char>>, k: int) -> int
    decreases lines.len(),
{
    if lines.len() == 0 {
        0
    } else {
        match table_blocks(lines.drop_last()) {
            Ok(blocks) => if k < blocks.len() {
                source_line(lines.drop_last(), k)
            } else {
                lines.len() - 1
            },
            Err(_) => 0,
        }
    }
}

/// The block at position `k` of a table is the block of the line at `source_line(lines, k)`.
pub proof fn lemma_block_comes_from_line(lines: Seq<Seq<char>>, k: int)
    requires
        table_blocks(lines) is Ok,
        0 <= k < table_blocks(lines).unwrap().len(),
    ensures
        0 <= source_line(lines, k) < lines.len(),
        line_block(lines[source_line(lines, k)]) == Some(table_blocks(lines).unwrap()[k]),
    decreases lines.len(),
{
    let before = lines.drop_last();
    let earlier = table_blocks(before).unwrap();
    if k < earlier.len() {
        lemma_block_comes_from_line(before, k);
        assert(before[source_line(before, k)] == lines[source_line(before, k)]);
    }
}

/// The blocks of a table stand in the order of their lines.
pub proof fn lemma_blocks_in_order_of_lines(lines: Seq<Seq<char>>, k: int, l: int)
    requires
        table_blocks(lines) is Ok,
        0 <= k < l < table_blocks(lines).unwrap().len(),
    ensures
        source_line(lines, k) < source_line(lines, l),
    decreases lines.len(),
{
    let before = lines.drop_last();
    let earlier = table_blocks(before).unwrap();
    if l < earlier.len() {
        lemma_blocks_in_order_of_lines(before, k, l);
    } else {
        lemma_block_comes_from_line(before, k);
    }
}

/// Law: the ranges of the blocks of a table are in order and apart, where the lines of the
/// table say so. The table is read whatever its ranges are; so the law holds of the tables
/// in which no line that gives a block has a range that ends before it begins, and no two
/// such lines have ranges with a code point in common.
pub proof fn lemma_blocks_apart(lines: Seq<Seq<char>>)
    requires
        forall|i: int|
            0 <= i < lines.len() ==> (line_block(#[trigger] lines[i]) matches Some(block)
                ==> block.range.begin <= block.range.end),
        forall|i: int, j: int|
            0 <= i < lines.len() && 0 <= j < lines.len() && i != j ==> (line_block(
                #[trigger] lines[i],
            ) matches Some(one) ==> (line_block(#[trigger] lines[j]) matches Some(other)
                ==> !one.range.overlaps(other.range))),
    ensures
        table_blocks(lines) matches Ok(blocks) ==> ranges_apart(blocks),
{
    if table_blocks(lines) is Ok {
        let blocks = table_blocks(lines).unwrap();
        assert forall|i: int| 0 <= i < blocks.len() implies (#[trigger] blocks[i]).range.begin
            <= blocks[i].range.end by {
            lemma_block_comes_from_line(lines, i);
            let from = source_line(lines, i);
            assert(line_block(lines[from]) == Some(blocks[i]));
        }
        assert forall|i: int, j: int|
            0 <= i < blocks.len() && 0 <= j < blocks.len() && i != j implies !(
        #[trigger] blocks[i]).range.overlaps((#[trigger] blocks[j]).range) by {
            lemma_block_comes_from_line(lines, i);
            lemma_block_comes_from_line(lines, j);
            let from = source_line(lines, i);
            let other = source_line(lines, j);
            assert(line_block(lines[from]) == Some(blocks[i]));
            assert(line_block(lines[other]) == Some(blocks[j]));
            if i < j {
                lemma_blocks_in_order_of_lines(lines, i, j);
            } else {
                lemma_blocks_in_order_of_lines(lines, j, i);
            }
        }
    }
}

/// Reads the header of a block table from its lines.
pub fn read_header(lines: &Vec<Vec<char>>) -> (header: String)
    ensures
        header@ == table_header(views(lines@)),
{
    let end_mark = vec!['#', ' ', 'E', 'O', 'F'];
    proof {
        assert(end_mark@ == seq!['#', ' ', 'E', 'O', 'F']);
    }
    let mut header: Vec<char> = Vec::new();
    let mut i: usize = 0;
    while i < lines.len()
        invariant
            i <= lines@.len(),
            end_mark@ == seq!['#', ' ', 'E', 'O', 'F'],
            header@ == table_header(views(lines@).take(i as int)),
        decreases lines@.len() - i,
    {
        let line = &lines[i];
        proof {
            let before = views(lines@).take(i as int);
            let after = views(lines@).take(i + 1);
            assert(after.drop_last() == before);
            assert(after.last() == line@);
        }
        let n = line.len();
        if n > 0 && line[0] == '#' {
            let marks_end = n == end_mark.len() && has_match_at(line, &end_mark, 0);
            proof {
                if n == end_mark@.len() {
                    assert(line@.subrange(0, n as int) == line@);
                }
            }
            if !marks_end {
                let from: usize = if n > 1 && line[1] == ' ' {
                    2
                } else {
                    1
                };
                let mut text = copy_range(line, from, n);
                header.append(&mut text);
                header.push('\n');
            }
        }
        i += 1;
    }
    proof {
        assert(views(lines@).take(i as int) == views(lines@));
    }
    string_of(&header)
}

impl UnicodeBlocks {
    /// Decides whether the ranges of the blocks rise, as the table of the database has
    /// them. Ranges that rise are apart: no code point lies in two blocks.
    pub fn is_in_order(&self) -> (rising: bool)
        ensures
            rising == ranges_rise(self@.blocks),
            rising ==> ranges_apart(self@.blocks),
    {
        let ghost blocks = self@.blocks;
        let mut k: usize = 0;
        while k < self.0.len()
            invariant
                k <= self.0@.len(),
                blocks == block_views(self.0@),
                ranges_rise(blocks.take(k as int)),
            decreases self.0@.len() - k,
        {
            let range = self.0[k].range;
            proof {
                assert(blocks[k as int].range == range);
            }
            if range.begin > range.end {
                return false;
            }
            if k > 0 {
                let before = self.0[k - 1].range;
                proof {
                    assert(blocks[k - 1].range == before);
                }
                if before.end >= range.begin {
                    return false;
                }
            }
            proof {
                let now = blocks.take(k + 1);
                assert forall|i: int, j: int| 0 <= i < j < now.len() implies (
                #[trigger] now[i]).range.end < (#[trigger] now[j]).range.begin by {
                    if j < k {
                        assert(blocks.take(k as int)[i].range.end < blocks.take(
                            k as int,
                        )[j].range.begin);
                    } else if i < k - 1 {
                        assert(blocks.take(k as int)[i].range.end < blocks.take(k as int)[k
                            - 1].range.begin);
                        assert(blocks.take(k as int)[k - 1].range.begin <= blocks.take(
                            k as int,
                        )[k - 1].range.end);
                    }
                }
                assert forall|i: int| 0 <= i < now.len() implies (
                #[trigger] now[i]).range.begin <= now[i].range.end by {
                    if i < k {
                        assert(blocks.take(k as int)[i].range.begin <= blocks.take(
                            k as int,
                        )[i].range.end);
                    }
                }
            }
            k += 1;
        }
        proof {
            assert(blocks.take(k as int) == blocks);
            lemma_rising_ranges_are_apart(blocks);
        }
        true
    }

    /// Reads one line of the block table: a range and a name.
    pub fn parse_block(line: &str) -> (result: Result<Option<UnicodeBlock>, ParseError>)
        ensures
            match result {
                Ok(Some(block)) => parsed_block(line@) == Ok::<Option<BlockView>, ParseError>(
                    Some(block@),
                ),
                Ok(None) => parsed_block(line@) == Ok::<Option<BlockView>, ParseError>(None),
                Err(error) => parsed_block(line@) == Err::<Option<BlockView>, ParseError>(
                    error,
                ),
            },
    {
        read_block(&chars_of(line))
    }

    /// Reads the lines of a block table: the blocks in the order of the lines, or the first
    /// line whose structure is broken.
    pub fn parse_blocks(lines: &[&str]) -> (result: Result<Vec<UnicodeBlock>, ParseFailure>)
        ensures
            match result {
                Ok(blocks) => table_blocks(str_views(lines@)) == Ok::<
                    Seq<BlockView>,
                    ParseFailure,
                >(block_views(blocks@)),
                Err(failure) => table_blocks(str_views(lines@)) == Err::<
                    Seq<BlockView>,
                    ParseFailure,
                >(failure),
            },
    {
        let mut rows: Vec<Vec<char>> = Vec::new();
        let mut i: usize = 0;
        while i < lines.len()
            invariant
                i <= lines@.len(),
                views(rows@) == str_views(lines@).take(i as int),
            decreases lines@.len() - i,
        {
            let row = chars_of(lines[i]);
            proof {
                assert(views(rows@.push(row)) == views(rows@).push(row@));
                assert(str_views(lines@).take(i + 1) == str_views(lines@).take(i as int).push(
                    lines@[i as int]@,
                ));
            }
            rows.push(row);
            i += 1;
        }
        proof {
            assert(str_views(lines@).take(i as int) == str_views(lines@));
        }
        read_blocks(&rows)
    }

    /// Reads a block table from the text of its file. The table is read where nothing is
    /// wrong with any line of the text; else the first line with which something is wrong
    /// fails it.
    pub fn from_text(contents: &str) -> (result: Result<UnicodeBlocks, ParseFailure>)
        ensures
            match result {
                Ok(table) => table_blocks(lines_of(contents@)) == Ok::<
                    Seq<BlockView>,
                    ParseFailure,
                >(table@.blocks) && table@.header == table_header(lines_of(contents@)),
                Err(failure) => table_blocks(lines_of(contents@)) == Err::<
                    Seq<BlockView>,
                    ParseFailure,
                >(failure) && is_first_fault(lines_of(contents@), failure),
            },
            result is Ok <==> forall|i: int|
                0 <= i < lines_of(contents@).len() ==> line_fault(
                    #[trigger] lines_of(contents@)[i],
                ) is None,
    {
        let lines = split_lines(&chars_of(contents));
        proof {
            assert(lines@.len() <= usize::MAX);
            lemma_table_fails_at_first_fault(views(lines@));
        }
        match read_blocks(&lines) {
            Ok(blocks) => Ok(UnicodeBlocks(blocks, read_header(&lines))),
            Err(failure) => Err(failure),
        }
    }
}

} // verus!
