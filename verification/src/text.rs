//! Character sequences: conversion between strings and vectors of characters, pattern
//! search, splitting, replacement and trimming. Every function is specified over `Seq<char>`.

use vstd::prelude::*;

verus! {

/// `String::push` of the standard library: the string afterwards is the string before it with
/// `ch` appended as its last character.
pub assume_specification[ String::push ](s: &mut String, ch: char)
    ensures
        final(s)@ == old(s)@.push(ch),
;

/// The characters of `s`, in order.
pub fn chars_of(s: &str) -> (v: Vec<char>)
    ensures
        v@ == s@,
{
    let mut v: Vec<char> = Vec::new();
    for c in it: s.chars()
        invariant
            v@ == it.seq().take(it.index()),
    {
        v.push(c);
    }
    v
}

/// The string made of the characters of `v`, in order.
pub fn string_of(v: &Vec<char>) -> (s: String)
    ensures
        s@ == v@,
{
    let mut s = String::new();
    let mut i: usize = 0;
    while i < v.len()
        invariant
            i <= v.len(),
            s@ == v@.take(i as int),
        decreases v.len() - i,
    {
        s.push(v[i]);
        i += 1;
    }
    s
}

/// The characters of `s` from position `lo` up to, not including, position `hi`.
pub fn copy_range(s: &Vec<char>, lo: usize, hi: usize) -> (v: Vec<char>)
    requires
        lo <= hi <= s@.len(),
    ensures
        v@ == s@.subrange(lo as int, hi as int),
{
    let mut v: Vec<char> = Vec::new();
    let mut i: usize = lo;
    while i < hi
        invariant
            lo <= i <= hi <= s@.len(),
            v@ == s@.subrange(lo as int, i as int),
        decreases hi - i,
    {
        v.push(s[i]);
        i += 1;
    }
    v
}

/// Whether `pat` occurs in `s` at position `i`.
pub open spec fn matches_at(s: Seq<char>, pat: Seq<char>, i: int) -> bool {
    0 <= i && i + pat.len() <= s.len() && s.subrange(i, i + pat.len()) == pat
}

/// Decides whether `pat` occurs in `s` at position `i`.
pub fn has_match_at(s: &Vec<char>, pat: &Vec<char>, i: usize) -> (b: bool)
    ensures
        b == matches_at(s@, pat@, i as int),
{
    if pat.len() > s.len() || i > s.len() - pat.len() {
        return false;
    }
    let mut k: usize = 0;
    while k < pat.len()
        invariant
            k <= pat@.len(),
            i + pat@.len() <= s@.len() <= usize::MAX,
            s@.subrange(i as int, i + k) == pat@.take(k as int),
        decreases pat.len() - k,
    {
        if s[i + k] != pat[k] {
            proof {
                let window = s@.subrange(i as int, i + pat@.len());
                assert(window[k as int] != pat@[k as int]);
            }
            return false;
        }
        proof {
            assert(s@.subrange(i as int, i + k + 1) == s@.subrange(i as int, i + k).push(
                s@[i + k],
            ));
            assert(pat@.take(k + 1) == pat@.take(k as int).push(pat@[k as int]));
        }
        k += 1;
    }
    proof {
        assert(pat@.take(pat@.len() as int) == pat@);
    }
    true
}

/// Decides whether `a` and `b` hold the same characters.
pub fn same_text(a: &Vec<char>, b: &Vec<char>) -> (equal: bool)
    ensures
        equal == (a@ == b@),
{
    if a.len() != b.len() {
        return false;
    }
    proof {
        assert(a@.subrange(0, a@.len() as int) == a@);
    }
    has_match_at(a, b, 0)
}

/// The pieces of `s` that lie between the occurrences of `pat`, reading from position `from`
/// with the current piece begun at `start`. Occurrences are taken from left to right and
/// do not overlap.
pub open spec fn pieces_from(s: Seq<char>, pat: Seq<char>, start: int, from: int) -> Seq<
    Seq<char>,
>
    decreases s.len() - from,
{
    if pat.len() == 0 || from + pat.len() > s.len() {
        seq![s.subrange(start, s.len() as int)]
    } else if matches_at(s, pat, from) {
        seq![s.subrange(start, from)] + pieces_from(s, pat, from + pat.len(), from + pat.len())
    } else {
        pieces_from(s, pat, start, from + 1)
    }
}

/// The pieces into which the occurrences of `pat` divide `s`: one more piece than there are
/// occurrences. An empty pattern occurs nowhere.
pub open spec fn pieces(s: Seq<char>, pat: Seq<char>) -> Seq<Seq<char>> {
    pieces_from(s, pat, 0, 0)
}

/// The pieces of `parts` with `pat` between each piece and the next.
pub open spec fn joined(parts: Seq<Seq<char>>, pat: Seq<char>) -> Seq<char>
    decreases parts.len(),
{
    if parts.len() == 0 {
        Seq::empty()
    } else if parts.len() == 1 {
        parts[0]
    } else {
        parts[0] + pat + joined(parts.drop_first(), pat)
    }
}

/// The pieces from a position on, with the pattern between them, are what `s` holds from
/// the beginning of the current piece on.
pub proof fn lemma_pieces_from_join(s: Seq<char>, pat: Seq<char>, start: int, from: int)
    requires
        0 <= start <= from <= s.len(),
    ensures
        pieces_from(s, pat, start, from).len() >= 1,
        joined(pieces_from(s, pat, start, from), pat) == s.subrange(start, s.len() as int),
    decreases s.len() - from,
{
    if pat.len() == 0 || from + pat.len() > s.len() {
    } else if matches_at(s, pat, from) {
        let next = from + pat.len();
        let rest = pieces_from(s, pat, next, next);
        lemma_pieces_from_join(s, pat, next, next);
        let all = seq![s.subrange(start, from)] + rest;
        assert(all.drop_first() == rest);
        assert(all[0] == s.subrange(start, from));
        assert(s.subrange(start, from) + pat + s.subrange(next, s.len() as int) == s.subrange(
            start,
            s.len() as int,
        ));
    } else {
        lemma_pieces_from_join(s, pat, start, from + 1);
    }
}

/// The pieces of `s`, with the pattern between them, are `s`.
pub proof fn lemma_pieces_join(s: Seq<char>, pat: Seq<char>)
    ensures
        pieces(s, pat).len() >= 1,
        joined(pieces(s, pat), pat) == s,
{
    lemma_pieces_from_join(s, pat, 0, 0);
    assert(s.subrange(0, s.len() as int) == s);
}

/// The character sequences that the vectors of `v` hold.
pub open spec fn views(v: Seq<Vec<char>>) -> Seq<Seq<char>> {
    Seq::new(v.len(), |i: int| v[i]@)
}

/// Splits `s` at every occurrence of `pat`.
pub fn split(s: &Vec<char>, pat: &Vec<char>) -> (tokens: Vec<Vec<char>>)
    ensures
        views(tokens@) == pieces(s@, pat@),
        tokens@.len() >= 1,
        joined(views(tokens@), pat@) == s@,
{
    proof {
        lemma_pieces_join(s@, pat@);
    }
    let mut tokens: Vec<Vec<char>> = Vec::new();
    let mut start: usize = 0;
    let mut from: usize = 0;
    if pat.len() > 0 {
        while pat.len() <= s.len() && from <= s.len() - pat.len()
            invariant
                pat@.len() > 0,
                start <= from <= s@.len(),
                pieces(s@, pat@) == views(tokens@) + pieces_from(
                    s@,
                    pat@,
                    start as int,
                    from as int,
                ),
            decreases s@.len() - from,
        {
            if has_match_at(s, pat, from) {
                let token = copy_range(s, start, from);
                proof {
                    let rest = pieces_from(s@, pat@, from + pat@.len(), from + pat@.len());
                    assert(views(tokens@.push(token)) == views(tokens@).push(token@));
                    assert(views(tokens@) + (seq![token@] + rest) == views(tokens@).push(token@)
                        + rest);
                }
                tokens.push(token);
                from = from + pat.len();
                start = from;
            } else {
                from = from + 1;
            }
        }
    }
    let last = copy_range(s, start, s.len());
    proof {
        assert(views(tokens@.push(last)) == views(tokens@).push(last@));
        assert(views(tokens@) + seq![last@] == views(tokens@).push(last@));
        if pat@.len() == 0 {
            assert(views(tokens@) == Seq::<Seq<char>>::empty());
        }
    }
    tokens.push(last);
    tokens
}

/// `s` with every occurrence of `pat` from position `from` on replaced by `rep`.
pub open spec fn replaced_from(s: Seq<char>, pat: Seq<char>, rep: Seq<char>, from: int) -> Seq<
    char,
>
    decreases s.len() - from,
{
    if pat.len() == 0 || from + pat.len() > s.len() {
        s.subrange(from, s.len() as int)
    } else if matches_at(s, pat, from) {
        rep + replaced_from(s, pat, rep, from + pat.len())
    } else {
        seq![s[from]] + replaced_from(s, pat, rep, from + 1)
    }
}

/// `s` with every occurrence of `pat` replaced by `rep`. Occurrences are taken from left to
/// right and do not overlap; an empty pattern occurs nowhere.
pub open spec fn replaced(s: Seq<char>, pat: Seq<char>, rep: Seq<char>) -> Seq<char> {
    replaced_from(s, pat, rep, 0)
}

/// Whether `c` is none of the characters of `s`.
pub open spec fn free_of(s: Seq<char>, c: char) -> bool {
    forall|i: int| 0 <= i < s.len() ==> #[trigger] s[i] != c
}

/// Where every occurrence of the one character `c` is replaced by a sequence without `c`,
/// no `c` is left.
pub proof fn lemma_replaced_is_free_of(s: Seq<char>, c: char, rep: Seq<char>, from: int)
    requires
        0 <= from <= s.len(),
        free_of(rep, c),
    ensures
        free_of(replaced_from(s, seq![c], rep, from), c),
    decreases s.len() - from,
{
    let pat = seq![c];
    if from + pat.len() > s.len() {
    } else if matches_at(s, pat, from) {
        lemma_replaced_is_free_of(s, c, rep, from + 1);
    } else {
        lemma_replaced_is_free_of(s, c, rep, from + 1);
        assert(s[from] != c) by {
            if s[from] == c {
                assert(s.subrange(from, from + 1) == pat);
            }
        }
    }
}

/// A replacement brings in no character that neither `s` nor `rep` holds.
pub proof fn lemma_replaced_stays_free_of(
    s: Seq<char>,
    pat: Seq<char>,
    rep: Seq<char>,
    c: char,
    from: int,
)
    requires
        0 <= from <= s.len(),
        free_of(s, c),
        free_of(rep, c),
    ensures
        free_of(replaced_from(s, pat, rep, from), c),
    decreases s.len() - from,
{
    if pat.len() == 0 || from + pat.len() > s.len() {
    } else if matches_at(s, pat, from) {
        lemma_replaced_stays_free_of(s, pat, rep, c, from + pat.len());
    } else {
        lemma_replaced_stays_free_of(s, pat, rep, c, from + 1);
    }
}

/// A part of a sequence holds no character that the sequence does not hold.
pub proof fn lemma_part_is_free_of(s: Seq<char>, lo: int, hi: int, c: char)
    requires
        0 <= lo <= hi <= s.len(),
        free_of(s, c),
    ensures
        free_of(s.subrange(lo, hi), c),
{
    assert forall|i: int| 0 <= i < hi - lo implies #[trigger] s.subrange(lo, hi)[i] != c by {
        assert(s[lo + i] != c);
    }
}

/// The pieces between the occurrences of the one character `c` hold no `c`, and no other
/// character that `s` does not hold.
pub proof fn lemma_pieces_are_free_of(s: Seq<char>, c: char, other: char, start: int, from: int)
    requires
        0 <= start <= from <= s.len(),
        free_of(s.subrange(start, from), c),
    ensures
        forall|k: int|
            0 <= k < pieces_from(s, seq![c], start, from).len() ==> free_of(
                #[trigger] pieces_from(s, seq![c], start, from)[k],
                c,
            ),
        free_of(s, other) ==> forall|k: int|
            0 <= k < pieces_from(s, seq![c], start, from).len() ==> free_of(
                #[trigger] pieces_from(s, seq![c], start, from)[k],
                other,
            ),
    decreases s.len() - from,
{
    let pat = seq![c];
    let all = pieces_from(s, pat, start, from);
    if from + pat.len() > s.len() {
        assert(s.subrange(start, s.len() as int) == s.subrange(start, from));
        assert(all == seq![s.subrange(start, from)]);
        if free_of(s, other) {
            lemma_part_is_free_of(s, start, from, other);
        }
        assert forall|k: int| 0 <= k < all.len() implies free_of(#[trigger] all[k], c) by {
            assert(all[k] == s.subrange(start, from));
        }
        if free_of(s, other) {
            assert forall|k: int| 0 <= k < all.len() implies free_of(#[trigger] all[k], other) by {
                assert(all[k] == s.subrange(start, from));
            }
        }
    } else if matches_at(s, pat, from) {
        let next = from + 1;
        let rest = pieces_from(s, pat, next, next);
        assert(s.subrange(next, next) == Seq::<char>::empty());
        lemma_pieces_are_free_of(s, c, other, next, next);
        assert(all == seq![s.subrange(start, from)] + rest);
        if free_of(s, other) {
            lemma_part_is_free_of(s, start, from, other);
        }
        assert forall|k: int| 0 <= k < all.len() implies free_of(#[trigger] all[k], c) by {
            if k > 0 {
                assert(all[k] == rest[k - 1]);
            } else {
                assert(all[k] == s.subrange(start, from));
            }
        }
        if free_of(s, other) {
            assert forall|k: int| 0 <= k < all.len() implies free_of(#[trigger] all[k], other) by {
                if k > 0 {
                    assert(all[k] == rest[k - 1]);
                } else {
                    assert(all[k] == s.subrange(start, from));
                }
            }
        }
    } else {
        assert(s[from] != c) by {
            if s[from] == c {
                assert(s.subrange(from, from + 1) == pat);
            }
        }
        let longer = s.subrange(start, from + 1);
        assert forall|i: int| 0 <= i < longer.len() implies #[trigger] longer[i] != c by {
            if i < from - start {
                assert(s.subrange(start, from)[i] != c);
            }
        }
        lemma_pieces_are_free_of(s, c, other, start, from + 1);
        assert(all == pieces_from(s, pat, start, from + 1));
    }
}

/// Replaces every occurrence of `pat` in `s` by `rep`.
pub fn replace_all(s: &Vec<char>, pat: &Vec<char>, rep: &Vec<char>) -> (out: Vec<char>)
    ensures
        out@ == replaced(s@, pat@, rep@),
{
    let mut out: Vec<char> = Vec::new();
    let mut from: usize = 0;
    if pat.len() > 0 {
        while pat.len() <= s.len() && from <= s.len() - pat.len()
            invariant
                pat@.len() > 0,
                from <= s@.len(),
                replaced(s@, pat@, rep@) == out@ + replaced_from(s@, pat@, rep@, from as int),
            decreases s@.len() - from,
        {
            if has_match_at(s, pat, from) {
                proof {
                    let rest = replaced_from(s@, pat@, rep@, from + pat@.len());
                    assert(out@ + (rep@ + rest) == (out@ + rep@) + rest);
                }
                let mut piece = rep.clone();
                out.append(&mut piece);
                from = from + pat.len();
            } else {
                proof {
                    let rest = replaced_from(s@, pat@, rep@, from + 1);
                    assert(out@ + (seq![s@[from as int]] + rest) == out@.push(s@[from as int])
                        + rest);
                }
                out.push(s[from]);
                from = from + 1;
            }
        }
    }
    let mut tail = copy_range(s, from, s.len());
    out.append(&mut tail);
    out
}

/// Whether `c` is white space: a character with the Unicode property `White_Space`.
pub open spec fn is_whitespace(c: char) -> bool {
    let u = c as u32;
    ||| 0x09 <= u <= 0x0D
    ||| u == 0x20
    ||| u == 0x85
    ||| u == 0xA0
    ||| u == 0x1680
    ||| 0x2000 <= u <= 0x200A
    ||| u == 0x2028
    ||| u == 0x2029
    ||| u == 0x202F
    ||| u == 0x205F
    ||| u == 0x3000
}

/// Decides whether `c` is white space.
pub fn whitespace(c: char) -> (b: bool)
    ensures
        b == is_whitespace(c),
{
    let u: u32 = c as u32;
    (0x09 <= u && u <= 0x0D) || u == 0x20 || u == 0x85 || u == 0xA0 || u == 0x1680 || (0x2000 <= u
        && u <= 0x200A) || u == 0x2028 || u == 0x2029 || u == 0x202F || u == 0x205F || u
        == 0x3000
}

/// `s` without the white space at its beginning.
pub open spec fn trimmed_start(s: Seq<char>) -> Seq<char>
    decreases s.len(),
{
    if s.len() > 0 && is_whitespace(s.first()) {
        trimmed_start(s.drop_first())
    } else {
        s
    }
}

/// `s` without the white space at its end.
pub open spec fn trimmed_end(s: Seq<char>) -> Seq<char>
    decreases s.len(),
{
    if s.len() > 0 && is_whitespace(s.last()) {
        trimmed_end(s.drop_last())
    } else {
        s
    }
}

/// `s` without the white space at its beginning and at its end.
pub open spec fn trimmed(s: Seq<char>) -> Seq<char> {
    trimmed_end(trimmed_start(s))
}

/// What is trimmed at the beginning is white space, and what follows it is `s` from there
/// on, which begins with no white space.
pub proof fn lemma_trimmed_start(s: Seq<char>) -> (lo: int)
    ensures
        0 <= lo <= s.len(),
        trimmed_start(s) == s.subrange(lo, s.len() as int),
        forall|i: int| 0 <= i < lo ==> is_whitespace(#[trigger] s[i]),
        lo < s.len() ==> !is_whitespace(s[lo]),
    decreases s.len(),
{
    if s.len() > 0 && is_whitespace(s.first()) {
        let rest = s.drop_first();
        let lo = lemma_trimmed_start(rest);
        assert(rest.subrange(lo, rest.len() as int) == s.subrange(lo + 1, s.len() as int));
        assert forall|i: int| 0 <= i < lo + 1 implies is_whitespace(#[trigger] s[i]) by {
            if i > 0 {
                assert(s[i] == rest[i - 1]);
            }
        }
        lo + 1
    } else {
        assert(s.subrange(0, s.len() as int) == s);
        0
    }
}

/// What is trimmed at the end is white space, and what comes before it is `s` up to
/// there, which ends with no white space.
pub proof fn lemma_trimmed_end(s: Seq<char>) -> (hi: int)
    ensures
        0 <= hi <= s.len(),
        trimmed_end(s) == s.subrange(0, hi),
        forall|i: int| hi <= i < s.len() ==> is_whitespace(#[trigger] s[i]),
        0 < hi ==> !is_whitespace(s[hi - 1]),
    decreases s.len(),
{
    if s.len() > 0 && is_whitespace(s.last()) {
        let rest = s.drop_last();
        let hi = lemma_trimmed_end(rest);
        assert(rest.subrange(0, hi) == s.subrange(0, hi));
        assert forall|i: int| hi <= i < s.len() implies is_whitespace(#[trigger] s[i]) by {
            if i < rest.len() {
                assert(s[i] == rest[i]);
            }
        }
        hi
    } else {
        assert(s.subrange(0, s.len() as int) == s);
        s.len() as int
    }
}

/// What is trimmed is the white space at both ends and nothing else: the rest is a part of
/// `s` that neither begins nor ends with white space.
pub proof fn lemma_trimmed(s: Seq<char>) -> (ends: (int, int))
    ensures
        0 <= ends.0 <= ends.1 <= s.len(),
        trimmed(s) == s.subrange(ends.0, ends.1),
        forall|i: int| 0 <= i < ends.0 ==> is_whitespace(#[trigger] s[i]),
        forall|i: int| ends.1 <= i < s.len() ==> is_whitespace(#[trigger] s[i]),
        ends.0 < ends.1 ==> !is_whitespace(s[ends.0]) && !is_whitespace(s[ends.1 - 1]),
{
    let lo = lemma_trimmed_start(s);
    let rest = s.subrange(lo, s.len() as int);
    let hi = lemma_trimmed_end(rest);
    assert(rest.subrange(0, hi) == s.subrange(lo, lo + hi));
    assert forall|i: int| lo + hi <= i < s.len() implies is_whitespace(#[trigger] s[i]) by {
        assert(s[i] == rest[i - lo]);
    }
    if hi > 0 {
        assert(rest[hi - 1] == s[lo + hi - 1]);
        assert(rest[0] == s[lo]);
    }
    (lo, lo + hi)
}

/// Removes the white space at both ends of `s`.
pub fn trim(s: &Vec<char>) -> (out: Vec<char>)
    ensures
        out@ == trimmed(s@),
        out@.len() > 0 ==> !is_whitespace(out@.first()) && !is_whitespace(out@.last()),
{
    proof {
        let ends = lemma_trimmed(s@);
    }
    let mut lo: usize = 0;
    proof {
        assert(s@.subrange(0, s@.len() as int) == s@);
    }
    while lo < s.len() && whitespace(s[lo])
        invariant
            lo <= s@.len(),
            trimmed_start(s@) == trimmed_start(s@.subrange(lo as int, s@.len() as int)),
        decreases s@.len() - lo,
    {
        proof {
            let rest = s@.subrange(lo as int, s@.len() as int);
            assert(rest.drop_first() == s@.subrange(lo + 1, s@.len() as int));
        }
        lo += 1;
    }
    let mut hi: usize = s.len();
    while lo < hi && whitespace(s[hi - 1])
        invariant
            lo <= hi <= s@.len(),
            trimmed_start(s@) == s@.subrange(lo as int, s@.len() as int),
            trimmed(s@) == trimmed_end(s@.subrange(lo as int, hi as int)),
        decreases hi - lo,
    {
        proof {
            let rest = s@.subrange(lo as int, hi as int);
            assert(rest.drop_last() == s@.subrange(lo as int, hi - 1));
        }
        hi -= 1;
    }
    copy_range(s, lo, hi)
}

/// `c` in lower case where it is one of the letters `A` to `Z`, else `c`.
pub open spec fn ascii_lower(c: char) -> char {
    if 'A' <= c && c <= 'Z' {
        ((c as u8) + 32) as char
    } else {
        c
    }
}

/// `c` in upper case where it is one of the letters `a` to `z`, else `c`.
pub open spec fn ascii_upper(c: char) -> char {
    if 'a' <= c && c <= 'z' {
        ((c as u8) - 32) as char
    } else {
        c
    }
}

/// Lower case of an ASCII letter; any other character is returned as it is.
pub fn to_ascii_lower(c: char) -> (r: char)
    ensures
        r == ascii_lower(c),
{
    if 'A' <= c && c <= 'Z' {
        ((c as u8) + 32) as char
    } else {
        c
    }
}

/// Upper case of an ASCII letter; any other character is returned as it is.
pub fn to_ascii_upper(c: char) -> (r: char)
    ensures
        r == ascii_upper(c),
{
    if 'a' <= c && c <= 'z' {
        ((c as u8) - 32) as char
    } else {
        c
    }
}

/// `s` without the carriage return at its end, if it has one.
pub open spec fn without_carriage_return(s: Seq<char>) -> Seq<char> {
    if s.len() > 0 && s.last() == '\r' {
        s.drop_last()
    } else {
        s
    }
}

/// The lines of `s`. A line ends with a line feed, or with a carriage return and a line feed,
/// neither of which belongs to the line. What follows the last line feed is a line as it
/// stands, unless it is empty.
pub open spec fn lines_of(s: Seq<char>) -> Seq<Seq<char>> {
    let parts = pieces(s, seq!['\n']);
    let ended = Seq::new((parts.len() - 1) as nat, |i: int| without_carriage_return(parts[i]));
    if parts.last().len() == 0 {
        ended
    } else {
        ended.push(parts.last())
    }
}

/// Splits `s` into its lines.
pub fn split_lines(s: &Vec<char>) -> (lines: Vec<Vec<char>>)
    ensures
        views(lines@) == lines_of(s@),
{
    let feed = vec!['\n'];
    proof {
        assert(feed@ == seq!['\n']);
    }
    let parts = split(s, &feed);
    let ghost all = pieces(s@, seq!['\n']);
    let ghost ended = Seq::new(
        (all.len() - 1) as nat,
        |i: int| without_carriage_return(all[i]),
    );
    let mut lines: Vec<Vec<char>> = Vec::new();
    let mut i: usize = 0;
    while i < parts.len() - 1
        invariant
            i + 1 <= parts@.len(),
            views(parts@) == all,
            ended.len() == all.len() - 1,
            forall|k: int| 0 <= k < ended.len() ==> ended[k] == without_carriage_return(all[k]),
            views(lines@) == ended.take(i as int),
        decreases parts@.len() - i,
    {
        let part = &parts[i];
        let n = part.len();
        let line = if n > 0 && part[n - 1] == '\r' {
            copy_range(part, 0, n - 1)
        } else {
            copy_range(part, 0, n)
        };
        proof {
            assert(part@ == all[i as int]);
            assert(part@.subrange(0, n as int) == part@);
            assert(views(lines@.push(line)) == views(lines@).push(line@));
            assert(ended.take(i + 1) == ended.take(i as int).push(ended[i as int]));
        }
        lines.push(line);
        i += 1;
    }
    proof {
        assert(ended.take(i as int) == ended);
    }
    let last = &parts[i];
    proof {
        assert(last@ == all.last());
    }
    if last.len() > 0 {
        let line = copy_range(last, 0, last.len());
        proof {
            assert(last@.subrange(0, last@.len() as int) == last@);
            assert(views(lines@.push(line)) == views(lines@).push(line@));
        }
        lines.push(line);
    }
    lines
}

} // verus!
