//! From the name of a block or of a character to the identifiers that the rendered text uses:
//! in snake case, in upper camel case and as a constant, and to the name as it is displayed.

use crate::text::{
    ascii_lower, ascii_upper, chars_of, free_of, lemma_pieces_are_free_of,
    lemma_replaced_is_free_of, lemma_replaced_stays_free_of, pieces, replace_all, replaced,
    split, string_of, to_ascii_lower, to_ascii_upper, views,
};
use vstd::prelude::*;

verus! {

/// What `str::to_lowercase` of the standard library returns for a string with the characters
/// `s`: its lower case by the case mappings of Unicode.
pub uninterp spec fn lowercase_of(s: Seq<char>) -> Seq<char>;

/// What `str::to_uppercase` of the standard library returns for a string with the characters
/// `s`: its upper case by the case mappings of Unicode.
pub uninterp spec fn uppercase_of(s: Seq<char>) -> Seq<char>;

/// `str::to_lowercase` of the standard library: the result depends on the characters of `s`
/// alone, and `lowercase_of` is its name.
pub assume_specification[ str::to_lowercase ](s: &str) -> (r: String)
    ensures
        r@ == lowercase_of(s@),
;

/// `str::to_uppercase` of the standard library: the result depends on the characters of `s`
/// alone, and `uppercase_of` is its name.
pub assume_specification[ str::to_uppercase ](s: &str) -> (r: String)
    ensures
        r@ == uppercase_of(s@),
;

/// `s` with every space and every dash replaced by an underscore.
pub open spec fn underscored(s: Seq<char>) -> Seq<char> {
    replaced(replaced(s, seq![' '], seq!['_']), seq!['-'], seq!['_'])
}

/// The identifier in snake case for `name`: its lower case, with an underscore for every
/// space and every dash.
pub open spec fn snake_text(name: Seq<char>) -> Seq<char> {
    underscored(lowercase_of(name))
}

/// `s` with every space replaced by an underscore and every dash by the word `_DASH_`.
pub open spec fn dashes_spelled(s: Seq<char>) -> Seq<char> {
    replaced(replaced(s, seq![' '], seq!['_']), seq!['-'], "_DASH_"@)
}

/// The name of the constant for `name`: its upper case, with an underscore for every space
/// and `_DASH_` for every dash.
pub open spec fn constant_text(name: Seq<char>) -> Seq<char> {
    dashes_spelled(uppercase_of(name))
}

/// `word` with its first character in upper case and the others in lower case, as far as
/// they are ASCII letters.
pub open spec fn capitalized(word: Seq<char>) -> Seq<char> {
    Seq::new(
        word.len(),
        |i: int|
            if i == 0 {
                ascii_upper(word[i])
            } else {
                ascii_lower(word[i])
            },
    )
}

/// The words of `words`, each capitalized, one after the other with nothing between them.
pub open spec fn capitalized_words(words: Seq<Seq<char>>) -> Seq<char>
    decreases words.len(),
{
    if words.len() == 0 {
        Seq::empty()
    } else {
        capitalized_words(words.drop_last()) + capitalized(words.last())
    }
}

/// The identifier in upper camel case for `name`: every dash becomes the word `Dash`, and
/// the words that the spaces separate are capitalized and joined.
pub open spec fn camel_text(name: Seq<char>) -> Seq<char> {
    capitalized_words(pieces(replaced(name, seq!['-'], " Dash "@), seq![' ']))
}

/// The name as it is displayed: its lower case.
pub open spec fn pretty_text(name: Seq<char>) -> Seq<char> {
    lowercase_of(name)
}

/// An identifier in snake case holds neither a space nor a dash.
pub proof fn lemma_underscored_is_one_word(s: Seq<char>)
    ensures
        free_of(underscored(s), ' '),
        free_of(underscored(s), '-'),
{
    let spaced = replaced(s, seq![' '], seq!['_']);
    lemma_replaced_is_free_of(s, ' ', seq!['_'], 0);
    lemma_replaced_is_free_of(spaced, '-', seq!['_'], 0);
    lemma_replaced_stays_free_of(spaced, seq!['-'], seq!['_'], ' ', 0);
}

/// The name of a constant holds neither a space nor a dash.
pub proof fn lemma_dashes_spelled_is_one_word(s: Seq<char>)
    ensures
        free_of(dashes_spelled(s), ' '),
        free_of(dashes_spelled(s), '-'),
{
    reveal_strlit("_DASH_");
    let spaced = replaced(s, seq![' '], seq!['_']);
    lemma_replaced_is_free_of(s, ' ', seq!['_'], 0);
    lemma_replaced_is_free_of(spaced, '-', "_DASH_"@, 0);
    lemma_replaced_stays_free_of(spaced, seq!['-'], "_DASH_"@, ' ', 0);
}

/// The words of `words`, capitalized and joined, hold neither a space nor a dash where
/// none of the words does.
pub proof fn lemma_capitalized_words_are_one_word(words: Seq<Seq<char>>)
    requires
        forall|k: int| 0 <= k < words.len() ==> free_of(#[trigger] words[k], ' '),
        forall|k: int| 0 <= k < words.len() ==> free_of(#[trigger] words[k], '-'),
    ensures
        free_of(capitalized_words(words), ' '),
        free_of(capitalized_words(words), '-'),
    decreases words.len(),
{
    if words.len() > 0 {
        let before = words.drop_last();
        assert forall|k: int| 0 <= k < before.len() implies free_of(#[trigger] before[k], ' ') by {
            assert(before[k] == words[k]);
        }
        assert forall|k: int| 0 <= k < before.len() implies free_of(#[trigger] before[k], '-') by {
            assert(before[k] == words[k]);
        }
        lemma_capitalized_words_are_one_word(before);
        let word = words.last();
        assert(free_of(word, ' '));
        assert(free_of(word, '-'));
        assert forall|i: int| 0 <= i < capitalized(word).len() implies #[trigger] capitalized(
            word,
        )[i] != ' ' && capitalized(word)[i] != '-' by {
            assert(word[i] != ' ' && word[i] != '-');
        }
    }
}

/// An identifier in upper camel case holds neither a space nor a dash.
pub proof fn lemma_camel_is_one_word(name: Seq<char>)
    ensures
        free_of(camel_text(name), ' '),
        free_of(camel_text(name), '-'),
{
    reveal_strlit(" Dash ");
    let worded = replaced(name, seq!['-'], " Dash "@);
    lemma_replaced_is_free_of(name, '-', " Dash "@, 0);
    assert(worded.subrange(0, 0) == Seq::<char>::empty());
    lemma_pieces_are_free_of(worded, ' ', '-', 0, 0);
    lemma_capitalized_words_are_one_word(pieces(worded, seq![' ']));
}

/// Replaces every space and every dash of `s` by an underscore.
pub fn underscore(s: &str) -> (out: String)
    ensures
        out@ == underscored(s@),
        free_of(out@, ' '),
        free_of(out@, '-'),
{
    proof {
        lemma_underscored_is_one_word(s@);
    }
    let space = vec![' '];
    let dash = vec!['-'];
    let line = vec!['_'];
    proof {
        assert(space@ == seq![' ']);
        assert(dash@ == seq!['-']);
        assert(line@ == seq!['_']);
    }
    let spaced = replace_all(&chars_of(s), &space, &line);
    string_of(&replace_all(&spaced, &dash, &line))
}

/// Replaces every space of `s` by an underscore and every dash by `_DASH_`.
pub fn spell_dashes(s: &str) -> (out: String)
    ensures
        out@ == dashes_spelled(s@),
        free_of(out@, ' '),
        free_of(out@, '-'),
{
    proof {
        lemma_dashes_spelled_is_one_word(s@);
    }
    let space = vec![' '];
    let dash = vec!['-'];
    let line = vec!['_'];
    proof {
        assert(space@ == seq![' ']);
        assert(dash@ == seq!['-']);
        assert(line@ == seq!['_']);
    }
    let spaced = replace_all(&chars_of(s), &space, &line);
    string_of(&replace_all(&spaced, &dash, &chars_of("_DASH_")))
}

/// The identifier in snake case for `name`.
pub fn snake_identifier(name: &str) -> (out: String)
    ensures
        out@ == snake_text(name@),
        free_of(out@, ' '),
        free_of(out@, '-'),
{
    let lowered = name.to_lowercase();
    underscore(lowered.as_str())
}

/// The name of the constant for `name`.
pub fn upper_snake_constant(name: &str) -> (out: String)
    ensures
        out@ == constant_text(name@),
        free_of(out@, ' '),
        free_of(out@, '-'),
{
    let uppered = name.to_uppercase();
    spell_dashes(uppered.as_str())
}

/// The name as it is displayed.
pub fn pretty_display_name(name: &str) -> (out: String)
    ensures
        out@ == pretty_text(name@),
{
    name.to_lowercase()
}

/// Capitalizes one word.
pub fn capitalize(word: &Vec<char>) -> (out: Vec<char>)
    ensures
        out@ == capitalized(word@),
{
    let mut out: Vec<char> = Vec::new();
    let mut i: usize = 0;
    while i < word.len()
        invariant
            i <= word@.len(),
            out@ == capitalized(word@).take(i as int),
        decreases word@.len() - i,
    {
        let c = if i == 0 {
            to_ascii_upper(word[i])
        } else {
            to_ascii_lower(word[i])
        };
        proof {
            assert(capitalized(word@).take(i + 1) == capitalized(word@).take(i as int).push(c));
        }
        out.push(c);
        i += 1;
    }
    proof {
        assert(capitalized(word@).take(i as int) == capitalized(word@));
    }
    out
}

/// The identifier in upper camel case for `name`.
pub fn upper_camel_identifier(name: &str) -> (out: String)
    ensures
        out@ == camel_text(name@),
        free_of(out@, ' '),
        free_of(out@, '-'),
{
    proof {
        lemma_camel_is_one_word(name@);
    }
    let dash = vec!['-'];
    let space = vec![' '];
    proof {
        assert(dash@ == seq!['-']);
        assert(space@ == seq![' ']);
    }
    let worded = replace_all(&chars_of(name), &dash, &chars_of(" Dash "));
    let words = split(&worded, &space);
    let mut out: Vec<char> = Vec::new();
    let mut i: usize = 0;
    while i < words.len()
        invariant
            i <= words@.len(),
            out@ == capitalized_words(views(words@).take(i as int)),
        decreases words@.len() - i,
    {
        let mut word = capitalize(&words[i]);
        proof {
            let before = views(words@).take(i as int);
            let after = views(words@).take(i + 1);
            assert(after.drop_last() == before);
            assert(after.last() == words@[i as int]@);
        }
        out.append(&mut word);
        i += 1;
    }
    proof {
        assert(views(words@).take(i as int) == views(words@));
    }
    string_of(&out)
}

} // verus!
