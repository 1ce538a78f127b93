//! What the rendered enumeration of a block computes. The rendered text has one variant for
//! each member of the block, in the rising order of the code points, and its conversions
//! are tables over the variants. Here a variant is the position of its member, and each
//! conversion is a function on positions.

use crate::generate::{
    ascending, character_views, characters_in_range, lemma_members_of, members_of,
};
use crate::names::pretty_text;
use crate::scalar::is_scalar_value;
use crate::unicode_blocks::UnicodeBlock;
use crate::unicode_data::{CharacterView, UnicodeCharacter, UnicodeData};
use vstd::prelude::*;

verus! {

/// The error of a conversion into the enumeration: the character, or the code point, is no
/// member of the block.
#[derive(Debug, Clone, Copy, PartialEq, Eq, Structural)]
pub struct NotAMember;

/// Whether `c` is the character of a member.
pub open spec fn is_member(members: Seq<CharacterView>, c: char) -> bool {
    exists|i: int| 0 <= i < members.len() && (#[trigger] members[i]).character == c
}

/// The first variant: that of the member with the lowest code point. A block without
/// members has none.
pub open spec fn first_variant(members: Seq<CharacterView>) -> Option<int> {
    if members.len() > 0 {
        Some(0)
    } else {
        None
    }
}

/// The character of a variant.
pub open spec fn char_of(members: Seq<CharacterView>, variant: int) -> char {
    members[variant].character
}

/// The variant of a character: the position of the member that has it, and `None` for a
/// character that is no member.
pub open spec fn variant_of_char(members: Seq<CharacterView>, c: char) -> Option<int> {
    if is_member(members, c) {
        Some(choose|i: int| 0 <= i < members.len() && (#[trigger] members[i]).character == c)
    } else {
        None
    }
}

/// The code point of a variant: the number of its character.
pub open spec fn code_point_of(members: Seq<CharacterView>, variant: int) -> u32 {
    char_of(members, variant) as u32
}

/// The variant of a code point: that of the character with this code point, and `None` for
/// a number that is no scalar value or whose character is no member.
pub open spec fn variant_of_code_point(members: Seq<CharacterView>, code_point: u32) -> Option<
    int,
> {
    if is_scalar_value(code_point) {
        variant_of_char(members, code_point as char)
    } else {
        None
    }
}

/// The variant that follows `variant`: that of the next member, and `None` behind the last
/// member.
pub open spec fn successor(members: Seq<CharacterView>, variant: int) -> Option<int> {
    if variant + 1 < members.len() {
        Some(variant + 1)
    } else {
        None
    }
}

/// Where the iterator stands after `steps` steps from the first variant; `None` once it
/// has ended.
pub open spec fn visited(members: Seq<CharacterView>, steps: nat) -> Option<int>
    decreases steps,
{
    if steps == 0 {
        first_variant(members)
    } else {
        match visited(members, (steps - 1) as nat) {
            Some(variant) => successor(members, variant),
            None => None,
        }
    }
}

/// Where the code points rise, a character is the character of one member at most.
pub proof fn lemma_one_variant_for_a_char(members: Seq<CharacterView>, i: int, j: int)
    requires
        ascending(members),
        0 <= i < members.len(),
        0 <= j < members.len(),
        members[i].character == members[j].character,
    ensures
        i == j,
{
    if i < j {
        assert((members[i].character as u32) < (members[j].character as u32));
    }
    if j < i {
        assert((members[j].character as u32) < (members[i].character as u32));
    }
}

/// Law: a variant and its character stand for each other. The character of a variant
/// converts back to that variant, and the variant of a member's character has that
/// character.
pub proof fn lemma_char_round_trip(members: Seq<CharacterView>)
    requires
        ascending(members),
    ensures
        forall|variant: int|
            0 <= variant < members.len() ==> variant_of_char(
                members,
                #[trigger] char_of(members, variant),
            ) == Some(variant),
        forall|c: char| #[trigger]
            is_member(members, c) ==> char_of(members, variant_of_char(members, c).unwrap())
                == c,
{
    assert forall|variant: int| 0 <= variant < members.len() implies variant_of_char(
        members,
        #[trigger] char_of(members, variant),
    ) == Some(variant) by {
        let c = members[variant].character;
        assert(is_member(members, c));
        let found = variant_of_char(members, c).unwrap();
        lemma_one_variant_for_a_char(members, found, variant);
    }
}

/// Law: a code point that is in the enumeration comes back from the round trip. The
/// variant of the code point of a member has that code point, and the code point of a
/// variant converts back to that variant.
pub proof fn lemma_code_point_round_trip(members: Seq<CharacterView>)
    requires
        ascending(members),
    ensures
        forall|i: int|
            0 <= i < members.len() ==> {
                let code_point = (#[trigger] members[i]).character as u32;
                &&& variant_of_code_point(members, code_point) is Some
                &&& code_point_of(members, variant_of_code_point(members, code_point).unwrap())
                    == code_point
            },
        forall|variant: int|
            0 <= variant < members.len() ==> variant_of_code_point(
                members,
                #[trigger] code_point_of(members, variant),
            ) == Some(variant),
{
    lemma_char_round_trip(members);
    assert forall|i: int| 0 <= i < members.len() implies {
        let code_point = (#[trigger] members[i]).character as u32;
        &&& variant_of_code_point(members, code_point) is Some
        &&& code_point_of(members, variant_of_code_point(members, code_point).unwrap())
            == code_point
    } by {
        let c = members[i].character;
        assert((c as u32) as char == c);
        assert(char_of(members, i) == c);
        assert(is_member(members, c));
    }
    assert forall|variant: int| 0 <= variant < members.len() implies variant_of_code_point(
        members,
        #[trigger] code_point_of(members, variant),
    ) == Some(variant) by {
        let c = char_of(members, variant);
        assert((c as u32) as char == c);
    }
}

/// Law: the conversion from a character fails for every character that is no member, and
/// for no other.
pub proof fn lemma_only_members_convert(members: Seq<CharacterView>, c: char)
    ensures
        variant_of_char(members, c) is None <==> !is_member(members, c),
        variant_of_char(members, c) matches Some(variant) ==> 0 <= variant < members.len()
            && members[variant].character == c,
{
}

/// The iterator stands on the member at position `steps` after `steps` steps, and has
/// ended after as many steps as there are members.
pub proof fn lemma_visited(members: Seq<CharacterView>, steps: nat)
    ensures
        visited(members, steps) == (if steps < members.len() {
            Some(steps as int)
        } else {
            None::<int>
        }),
    decreases steps,
{
    if steps > 0 {
        lemma_visited(members, (steps - 1) as nat);
    }
}

/// Law: from the first variant the iterator visits every member once, in the strictly
/// rising order of the code points, and it ends behind the last member and not before.
pub proof fn lemma_iteration_visits_every_member_once(members: Seq<CharacterView>)
    requires
        ascending(members),
    ensures
        forall|variant: int|
            0 <= variant < members.len() ==> #[trigger] visited(members, variant as nat)
                == Some(variant),
        forall|steps: nat, other: nat|
            (#[trigger] visited(members, steps)) is Some && visited(members, steps)
                == #[trigger] visited(members, other) ==> steps == other,
        forall|steps: nat| #[trigger]
            visited(members, steps) is None <==> steps >= members.len(),
        forall|earlier: nat, later: nat|
            earlier < later < members.len() ==> code_point_of(
                members,
                #[trigger] visited(members, earlier).unwrap(),
            ) < code_point_of(members, #[trigger] visited(members, later).unwrap()),
{
    assert forall|variant: int| 0 <= variant < members.len() implies #[trigger] visited(
        members,
        variant as nat,
    ) == Some(variant) by {
        lemma_visited(members, variant as nat);
    }
    assert forall|steps: nat, other: nat|
        (#[trigger] visited(members, steps)) is Some && visited(members, steps)
            == #[trigger] visited(members, other) implies steps == other by {
        lemma_visited(members, steps);
        lemma_visited(members, other);
    }
    assert forall|steps: nat| #[trigger]
        visited(members, steps) is None <==> steps >= members.len() by {
        lemma_visited(members, steps);
    }
    assert forall|earlier: nat, later: nat| earlier < later < members.len() implies code_point_of(
        members,
        #[trigger] visited(members, earlier).unwrap(),
    ) < code_point_of(members, #[trigger] visited(members, later).unwrap()) by {
        lemma_visited(members, earlier);
        lemma_visited(members, later);
        assert((members[earlier as int].character as u32) < (members[later as int].character
            as u32));
    }
}

/// The enumeration of a block: its members in the order of their code points.
#[derive(Debug, PartialEq, Eq)]
pub struct Enumeration {
    pub members: Vec<UnicodeCharacter>,
}

impl View for Enumeration {
    type V = Seq<CharacterView>;

    open spec fn view(&self) -> Seq<CharacterView> {
        character_views(self.members@)
    }
}

impl Enumeration {
    /// Whether the enumeration is well formed: the code points rise from each member to
    /// the next.
    pub open spec fn well_formed(&self) -> bool {
        ascending(self@)
    }

    /// The enumeration of `block` in the table `data`.
    pub fn of_block(block: &UnicodeBlock, data: &UnicodeData) -> (enumeration: Enumeration)
        requires
            data.well_formed(),
        ensures
            enumeration.well_formed(),
            enumeration@ == members_of(block@.range, data@),
    {
        proof {
            lemma_members_of(block@.range, data@);
        }
        Enumeration { members: characters_in_range(&block.range, data) }
    }

    /// The number of variants.
    pub fn len(&self) -> (count: usize)
        ensures
            count == self@.len(),
    {
        self.members.len()
    }

    /// The first variant: that of the member with the lowest code point.
    pub fn first(&self) -> (variant: Option<usize>)
        ensures
            match variant {
                Some(first) => first_variant(self@) == Some(first as int),
                None => first_variant(self@) is None,
            },
    {
        if self.members.len() > 0 {
            Some(0)
        } else {
            None
        }
    }

    /// The name of the character of a variant, as it is displayed.
    pub fn name(&self, variant: usize) -> (name: String)
        requires
            variant < self@.len(),
        ensures
            name@ == pretty_text(self@[variant as int].name),
    {
        self.members[variant].as_pretty_name()
    }

    /// The character of a variant.
    pub fn into_char(&self, variant: usize) -> (c: char)
        requires
            variant < self@.len(),
        ensures
            c == char_of(self@, variant as int),
    {
        self.members[variant].character
    }

    /// The variant of a character. It fails for every character that is no member of the
    /// block, and for no other.
    pub fn try_from_char(&self, c: char) -> (result: Result<usize, NotAMember>)
        requires
            self.well_formed(),
        ensures
            result is Ok <==> is_member(self@, c),
            match result {
                Ok(variant) => variant_of_char(self@, c) == Some(variant as int) && variant
                    < self@.len() && self@[variant as int].character == c,
                Err(_) => variant_of_char(self@, c) is None,
            },
    {
        let mut lo: usize = 0;
        let mut hi: usize = self.members.len();
        while lo < hi
            invariant
                lo <= hi <= self@.len(),
                self.well_formed(),
                forall|i: int| 0 <= i < lo ==> (#[trigger] self@[i]).character as u32 != c as u32,
                forall|i: int|
                    hi <= i < self@.len() ==> (#[trigger] self@[i]).character as u32 != c as u32,
            decreases hi - lo,
        {
            let mid = lo + (hi - lo) / 2;
            let here = self.members[mid].character;
            proof {
                assert(self@[mid as int].character == here);
            }
            if here == c {
                proof {
                    assert(is_member(self@, c));
                    lemma_one_variant_for_a_char(
                        self@,
                        variant_of_char(self@, c).unwrap(),
                        mid as int,
                    );
                }
                return Ok(mid);
            } else if here < c {
                proof {
                    assert forall|i: int| 0 <= i < mid + 1 implies (
                    #[trigger] self@[i]).character as u32 != c as u32 by {
                        if i < mid {
                            assert((self@[i].character as u32) < (self@[mid as int].character
                                as u32));
                        }
                    }
                }
                lo = mid + 1;
            } else {
                proof {
                    assert forall|i: int| mid <= i < self@.len() implies (
                    #[trigger] self@[i]).character as u32 != c as u32 by {
                        if mid < i {
                            assert((self@[mid as int].character as u32) < (self@[i].character
                                as u32));
                        }
                    }
                }
                hi = mid;
            }
        }
        Err(NotAMember)
    }

    /// The code point of a variant.
    pub fn into_u32(&self, variant: usize) -> (code_point: u32)
        requires
            variant < self@.len(),
        ensures
            code_point == code_point_of(self@, variant as int),
    {
        self.into_char(variant) as u32
    }

    /// The variant of a code point. It fails for every number that is no scalar value or
    /// whose character is no member of the block, and for no other.
    pub fn try_from_u32(&self, code_point: u32) -> (result: Result<usize, NotAMember>)
        requires
            self.well_formed(),
        ensures
            match result {
                Ok(variant) => variant_of_code_point(self@, code_point) == Some(variant as int)
                    && variant < self@.len() && self@[variant as int].character as u32
                    == code_point,
                Err(_) => variant_of_code_point(self@, code_point) is None,
            },
    {
        match char::from_u32(code_point) {
            Some(c) => self.try_from_char(c),
            None => Err(NotAMember),
        }
    }

    /// The variant that follows `variant`, and `None` behind the last.
    pub fn next(&self, variant: usize) -> (following: Option<usize>)
        requires
            variant < self@.len(),
        ensures
            match following {
                Some(next) => successor(self@, variant as int) == Some(next as int),
                None => successor(self@, variant as int) is None,
            },
    {
        if variant < self.members.len() - 1 {
            Some(variant + 1)
        } else {
            None
        }
    }
}

} // verus!
