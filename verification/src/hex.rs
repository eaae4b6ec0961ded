//! Hexadecimal digits.

use vstd::prelude::*;

verus! {

/// The sixteen lowercase hexadecimal digits, in order of their value.
pub open spec fn hex_digits() -> Seq<char> {
    seq!['0', '1', '2', '3', '4', '5', '6', '7', '8', '9', 'a', 'b', 'c', 'd', 'e', 'f']
}

/// The lowercase digit that stands for `n`, for `n` from 0 to 15.
pub open spec fn hex_digit(n: int) -> char {
    hex_digits()[n]
}

/// The value that `c` stands for as a hexadecimal digit, in either case;
/// `None` where `c` is no such digit.
pub open spec fn hex_value(c: char) -> Option<int> {
    if '0' <= c <= '9' {
        Some(c as int - '0' as int)
    } else if 'a' <= c <= 'f' {
        Some(c as int - 'a' as int + 10)
    } else if 'A' <= c <= 'F' {
        Some(c as int - 'A' as int + 10)
    } else {
        None
    }
}

/// Every digit that `hex_digit` gives is read back as its value, and is
/// neither a blank, a comma nor a line break.
pub proof fn lemma_hex_digit_value(n: int)
    requires
        0 <= n < 16,
    ensures
        hex_value(hex_digit(n)) == Some(n),
        hex_digit(n) != ' ',
        hex_digit(n) != '\n',
        hex_digit(n) != ',',
{
}

/// The lowercase hexadecimal digit for a value below 16.
pub(crate) fn hex_digit_of(n: u8) -> (c: char)
    requires
        n < 16,
    ensures
        c == hex_digit(n as int),
{
    if n < 10 {
        ('0' as u8 + n) as char
    } else {
        ('a' as u8 + (n - 10)) as char
    }
}

} // verus!
