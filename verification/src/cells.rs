//! Classification of single grid cells: digits, blanks and symbols.

use vstd::prelude::*;

verus! {

/// A cell is a digit when it holds one of the characters `'0'` through `'9'`.
pub open spec fn is_digit_char(c: char) -> bool {
    '0' as u32 <= c as u32 && c as u32 <= '9' as u32
}

/// A cell is a symbol when it is neither a digit nor the blank `'.'`.
pub open spec fn is_symbol_char(c: char) -> bool {
    !is_digit_char(c) && c != '.'
}

/// The numeric value of a digit character.
pub open spec fn digit_val(c: char) -> nat
    recommends
        is_digit_char(c),
{
    (c as u32 - '0' as u32) as nat
}

/// Whether `c` is one of the digit characters `'0'` through `'9'`.
pub fn is_digit(c: char) -> (r: bool)
    ensures
        r == is_digit_char(c),
{
    let u = c as u32;
    '0' as u32 <= u && u <= '9' as u32
}

/// Whether `c` is a symbol: neither a digit nor `'.'`.
pub fn is_symbol(c: &char) -> (r: bool)
    ensures
        r == is_symbol_char(*c),
{
    !is_digit(*c) && *c != '.'
}

} // verus!
