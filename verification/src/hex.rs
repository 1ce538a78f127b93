//! Numbers in base 16, as the tables write code points and as the rendered text escapes them.

use vstd::prelude::*;

verus! {

/// The value of `c` as a digit in base 16, in either case; `None` for any other character.
pub open spec fn hex_digit_value(c: char) -> Option<int> {
    if '0' <= c && c <= '9' {
        Some(c as int - '0' as int)
    } else if 'a' <= c && c <= 'f' {
        Some(c as int - 'a' as int + 10)
    } else if 'A' <= c && c <= 'F' {
        Some(c as int - 'A' as int + 10)
    } else {
        None
    }
}

/// Whether every character of `s` is a digit in base 16.
pub open spec fn is_hex_digits(s: Seq<char>) -> bool {
    forall|i: int| 0 <= i < s.len() ==> (#[trigger] hex_digit_value(s[i])) is Some
}

/// The number that the digits of `s` write in base 16, the first digit being the most
/// significant.
pub open spec fn hex_number(s: Seq<char>) -> int
    decreases s.len(),
{
    if s.len() == 0 {
        0
    } else {
        16 * hex_number(s.drop_last()) + hex_digit_value(s.last()).unwrap()
    }
}

/// The digits of `s`: `s` itself, or what follows its leading plus sign.
pub open spec fn unsigned_part(s: Seq<char>) -> Seq<char> {
    if s.len() > 0 && s[0] == '+' {
        s.drop_first()
    } else {
        s
    }
}

/// The number that `s` writes in base 16: one or more digits, in either case, after an
/// optional plus sign. `None` where `s` has no digit, holds another character, or writes a
/// number above `u32::MAX`.
pub open spec fn hex_value(s: Seq<char>) -> Option<u32> {
    let digits = unsigned_part(s);
    if digits.len() > 0 && is_hex_digits(digits) && hex_number(digits) <= u32::MAX {
        Some(hex_number(digits) as u32)
    } else {
        None
    }
}

/// The value of one digit in base 16.
pub fn digit_value(c: char) -> (d: Option<u32>)
    ensures
        d is Some == hex_digit_value(c) is Some,
        d is Some ==> d.unwrap() == hex_digit_value(c).unwrap() && d.unwrap() < 16,
{
    let u: u32 = c as u32;
    if '0' <= c && c <= '9' {
        Some(u - 0x30)
    } else if 'a' <= c && c <= 'f' {
        Some(u - 0x61 + 10)
    } else if 'A' <= c && c <= 'F' {
        Some(u - 0x41 + 10)
    } else {
        None
    }
}

/// Reads a number written in base 16.
pub fn parse_hex(s: &Vec<char>) -> (value: Option<u32>)
    ensures
        value == hex_value(s@),
{
    let first: usize = if s.len() > 0 && s[0] == '+' {
        1
    } else {
        0
    };
    let ghost digits = unsigned_part(s@);
    if first == s.len() {
        return None;
    }
    let mut acc: u64 = 0;
    let mut i: usize = first;
    while i < s.len()
        invariant
            first <= i <= s@.len(),
            digits == unsigned_part(s@),
            digits == s@.subrange(first as int, s@.len() as int),
            is_hex_digits(digits.take(i - first)),
            acc <= u32::MAX ==> acc == hex_number(digits.take(i - first)),
            acc > u32::MAX ==> hex_number(digits.take(i - first)) > u32::MAX,
            acc <= u32::MAX + 1,
        decreases s@.len() - i,
    {
        let ghost before = digits.take(i - first);
        let ghost after = digits.take(i - first + 1);
        proof {
            assert(after.drop_last() == before);
            assert(after.last() == s@[i as int]);
        }
        match digit_value(s[i]) {
            None => {
                proof {
                    assert(hex_digit_value(digits[i - first]) is None);
                }
                return None;
            },
            Some(d) => {
                if acc <= 0xFFFF_FFFF {
                    let next: u64 = 16 * acc + d as u64;
                    acc = if next > 0xFFFF_FFFF {
                        0x1_0000_0000
                    } else {
                        next
                    };
                }
                proof {
                    assert forall|k: int| 0 <= k < after.len() implies (
                    #[trigger] hex_digit_value(after[k])) is Some by {
                        if k < before.len() {
                            assert(after[k] == before[k]);
                        }
                    }
                }
            },
        }
        i += 1;
    }
    proof {
        assert(digits.take(i - first) == digits);
    }
    if acc > 0xFFFF_FFFF {
        None
    } else {
        Some(acc as u32)
    }
}

/// The digit of base 16 that stands for `n`, a letter being in lower case.
pub open spec fn hex_digit(n: int) -> char {
    if n < 10 {
        ('0' as int + n) as char
    } else {
        ('a' as int + n - 10) as char
    }
}

/// `n` written in base 16 with the fewest digits, letters in lower case.
pub open spec fn hex_digits(n: nat) -> Seq<char>
    decreases n,
{
    if n < 16 {
        seq![hex_digit(n as int)]
    } else {
        hex_digits(n / 16).push(hex_digit((n % 16) as int))
    }
}

/// Writes `n` in base 16.
pub fn format_hex(n: u32) -> (digits: Vec<char>)
    ensures
        digits@ == hex_digits(n as nat),
        hex_value(digits@) == Some(n),
    decreases n,
{
    proof {
        lemma_written_hex_is_read_back(n);
    }
    let low: u8 = (n % 16) as u8;
    let digit: char = if low < 10 {
        (0x30 + low) as char
    } else {
        (0x61 + low - 10) as char
    };
    let digits = if n < 16 {
        vec![digit]
    } else {
        let mut digits = format_hex(n / 16);
        digits.push(digit);
        digits
    };
    proof {
        assert(digits@ == hex_digits(n as nat));
    }
    digits
}

/// The digits that write a number are digits of base 16, and they write that number.
pub proof fn lemma_hex_digits_write(n: nat)
    ensures
        hex_digits(n).len() > 0,
        is_hex_digits(hex_digits(n)),
        hex_digits(n)[0] != '+',
        hex_number(hex_digits(n)) == n,
    decreases n,
{
    if n < 16 {
        let digits = hex_digits(n);
        assert(digits.drop_last() == Seq::<char>::empty());
        assert(hex_number(digits.drop_last()) == 0);
    } else {
        lemma_hex_digits_write(n / 16);
        let before = hex_digits(n / 16);
        let digits = before.push(hex_digit((n % 16) as int));
        assert(digits.drop_last() == before);
        assert forall|i: int| 0 <= i < digits.len() implies (#[trigger] hex_digit_value(
            digits[i],
        )) is Some by {
            if i < before.len() {
                assert(digits[i] == before[i]);
            }
        }
    }
}

/// A number that is written in base 16 is read back as it was.
pub proof fn lemma_written_hex_is_read_back(n: u32)
    ensures
        hex_value(hex_digits(n as nat)) == Some(n),
{
    lemma_hex_digits_write(n as nat);
}

} // verus!
