//! Identifiers that collide. The names of two characters may give the same constant or the
//! same variant, and the names of two blocks the same module; the text is rendered all the
//! same, and the later definition then stands against the earlier one. What is here finds
//! such names before anything is rendered.

use crate::generate::character_views;
use crate::names::{camel_text, constant_text, snake_text};
use crate::unicode_blocks::{block_views, BlockView, UnicodeBlock};
use crate::unicode_data::{CharacterView, UnicodeCharacter};
use vstd::prelude::*;

verus! {

/// The character sequences of the strings of `names`.
pub open spec fn string_views(names: Seq<String>) -> Seq<Seq<char>> {
    Seq::new(names.len(), |i: int| names[i]@)
}

/// Whether the name at position `j` is the name at an earlier position.
pub open spec fn repeats(names: Seq<Seq<char>>, j: int) -> bool {
    exists|i: int| 0 <= i < j && names[i] == names[j]
}

/// The first position of `names` that holds a name of an earlier position; `None` where all
/// the names differ.
pub open spec fn first_repeat_of(names: Seq<Seq<char>>) -> Option<int> {
    if exists|j: int| 0 <= j < names.len() && repeats(names, j) {
        Some(choose|j: int| is_first_repeat(names, j))
    } else {
        None
    }
}

/// Whether `j` is the first position of `names` that holds a name of an earlier position.
pub open spec fn is_first_repeat(names: Seq<Seq<char>>, j: int) -> bool {
    &&& 0 <= j < names.len()
    &&& repeats(names, j)
    &&& forall|k: int| 0 <= k < j ==> !repeats(names, k)
}

/// Finds the first name that is the name at an earlier position.
pub fn first_repeat(names: &Vec<String>) -> (found: Option<usize>)
    ensures
        match found {
            Some(j) => first_repeat_of(string_views(names@)) == Some(j as int)
                && is_first_repeat(string_views(names@), j as int),
            None => first_repeat_of(string_views(names@)) is None,
        },
{
    let ghost all = string_views(names@);
    let mut j: usize = 0;
    while j < names.len()
        invariant
            j <= names@.len(),
            all == string_views(names@),
            forall|k: int| 0 <= k < j ==> !repeats(all, k),
        decreases names@.len() - j,
    {
        let mut i: usize = 0;
        while i < j
            invariant
                i <= j < names@.len(),
                all == string_views(names@),
                forall|k: int| 0 <= k < j ==> !repeats(all, k),
                forall|k: int| 0 <= k < i ==> all[k] != all[j as int],
            decreases j - i,
        {
            if names[i] == names[j] {
                proof {
                    assert(all[i as int] == all[j as int]);
                    assert(is_first_repeat(all, j as int));
                    let chosen = choose|k: int| is_first_repeat(all, k);
                    assert(is_first_repeat(all, chosen));
                    assert(chosen == j);
                }
                return Some(j);
            }
            i += 1;
        }
        j += 1;
    }
    None
}

/// The names of the constants of `members`, in the order of the members.
pub open spec fn constant_names(members: Seq<CharacterView>) -> Seq<Seq<char>> {
    Seq::new(members.len(), |i: int| constant_text(members[i].name))
}

/// The names of the variants of `members`, in the order of the members.
pub open spec fn variant_names(members: Seq<CharacterView>) -> Seq<Seq<char>> {
    Seq::new(members.len(), |i: int| camel_text(members[i].name))
}

/// The names of the modules of `blocks`, in the order of the blocks.
pub open spec fn module_names(blocks: Seq<BlockView>) -> Seq<Seq<char>> {
    Seq::new(blocks.len(), |i: int| snake_text(blocks[i].name))
}

/// The names of the constants of the characters.
pub fn name_constants(characters: &[UnicodeCharacter]) -> (names: Vec<String>)
    ensures
        string_views(names@) == constant_names(character_views(characters@)),
{
    let mut names: Vec<String> = Vec::new();
    let mut i: usize = 0;
    while i < characters.len()
        invariant
            i <= characters@.len(),
            string_views(names@) == constant_names(character_views(characters@)).take(i as int),
        decreases characters@.len() - i,
    {
        let name = characters[i].as_upper_snake_case();
        proof {
            assert(string_views(names@.push(name)) == string_views(names@).push(name@));
        }
        names.push(name);
        i += 1;
    }
    names
}

/// The names of the variants of the characters.
pub fn name_variants(characters: &[UnicodeCharacter]) -> (names: Vec<String>)
    ensures
        string_views(names@) == variant_names(character_views(characters@)),
{
    let mut names: Vec<String> = Vec::new();
    let mut i: usize = 0;
    while i < characters.len()
        invariant
            i <= characters@.len(),
            string_views(names@) == variant_names(character_views(characters@)).take(i as int),
        decreases characters@.len() - i,
    {
        let name = characters[i].as_upper_camel_case();
        proof {
            assert(string_views(names@.push(name)) == string_views(names@).push(name@));
        }
        names.push(name);
        i += 1;
    }
    names
}

/// The names of the modules of the blocks.
pub fn name_modules(blocks: &Vec<UnicodeBlock>) -> (names: Vec<String>)
    ensures
        string_views(names@) == module_names(block_views(blocks@)),
{
    let mut names: Vec<String> = Vec::new();
    let mut i: usize = 0;
    while i < blocks.len()
        invariant
            i <= blocks@.len(),
            string_views(names@) == module_names(block_views(blocks@)).take(i as int),
        decreases blocks@.len() - i,
    {
        let name = blocks[i].as_snake_case();
        proof {
            assert(string_views(names@.push(name)) == string_views(names@).push(name@));
        }
        names.push(name);
        i += 1;
    }
    names
}

} // verus!
