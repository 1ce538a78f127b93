//! Code points and scalar values.

use vstd::prelude::*;

verus! {

/// Whether the code point `u` is a scalar value: at most `10FFFF` and no surrogate.
pub open spec fn is_scalar_value(u: u32) -> bool {
    u <= 0xD7FF || (0xE000 <= u && u <= 0x10FFFF)
}

/// `char::from_u32` of the standard library: the character whose code point is `i` where `i`
/// is a scalar value, and `None` for every other number.
pub assume_specification[ char::from_u32 ](i: u32) -> (r: Option<char>)
    ensures
        r == (if is_scalar_value(i) {
            Some(i as char)
        } else {
            None::<char>
        }),
;

/// Decides whether `u` is a scalar value.
pub fn scalar_value(u: u32) -> (b: bool)
    ensures
        b == is_scalar_value(u),
{
    u <= 0xD7FF || (0xE000 <= u && u <= 0x10FFFF)
}

/// The code point of `c`.
pub fn code_point(c: char) -> (u: u32)
    ensures
        u == c as u32,
        is_scalar_value(u),
{
    c as u32
}

} // verus!
