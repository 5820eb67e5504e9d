//! Part numbers: maximal horizontal runs of digit characters in one row.

use vstd::prelude::*;
use crate::cells::{digit_val, is_digit_char};

verus! {

/// The mathematical model of one part number: the row it occupies, the
/// inclusive column range of its digit run, and the digit characters.
pub struct TokenView {
    pub y: nat,
    pub x1: nat,
    pub x2: nat,
    pub text: Seq<char>,
}

/// The numeric value of a run of digit characters, most significant first.
pub open spec fn token_val(text: Seq<char>) -> nat
    decreases text.len(),
{
    if text.len() == 0 {
        0
    } else {
        token_val(text.drop_last()) * 10 + digit_val(text.last())
    }
}

/// Every prefix of a digit run has a value no larger than the whole run's.
pub proof fn lemma_token_val_take_le(text: Seq<char>, i: int)
    requires
        0 <= i <= text.len(),
    ensures
        token_val(text.take(i)) <= token_val(text),
    decreases text.len(),
{
    if i < text.len() {
        assert(text.drop_last().take(i) =~= text.take(i));
        lemma_token_val_take_le(text.drop_last(), i);
    } else {
        assert(text.take(i) =~= text);
    }
}

/// One maximal run of digit characters within a single row of a schematic.
pub struct PartNumber {
    pub y: usize,
    pub x1: usize,
    pub x2: usize,
    pub value: Vec<char>,
}

impl View for PartNumber {
    type V = TokenView;

    open spec fn view(&self) -> TokenView {
        TokenView { y: self.y as nat, x1: self.x1 as nat, x2: self.x2 as nat, text: self.value@ }
    }
}

impl Clone for PartNumber {
    fn clone(&self) -> (r: Self)
        ensures
            r@ == self@,
    {
        let r = PartNumber { y: self.y, x1: self.x1, x2: self.x2, value: self.value.clone() };
        proof {
            assert(r.value@ =~= self.value@);
        }
        r
    }
}

impl PartNumber {
    /// The numeric value of the digit run.
    pub fn as_number(&self) -> (r: u32)
        requires
            forall|i: int| 0 <= i < self@.text.len() ==> is_digit_char(#[trigger] self@.text[i]),
            token_val(self@.text) <= u32::MAX,
        ensures
            r as nat == token_val(self@.text),
    {
        let mut r: u32 = 0;
        let mut i: usize = 0;
        while i < self.value.len()
            invariant
                0 <= i <= self.value.len(),
                forall|j: int| 0 <= j < self@.text.len() ==> is_digit_char(#[trigger] self@.text[j]),
                token_val(self@.text) <= u32::MAX,
                r as nat == token_val(self@.text.take(i as int)),
            decreases self.value.len() - i,
        {
            let c = self.value[i];
            proof {
                lemma_token_val_take_le(self@.text, i + 1);
                assert(self@.text.take(i + 1).drop_last() =~= self@.text.take(i as int));
                assert(token_val(self@.text.take(i + 1)) == token_val(self@.text.take(i as int))
                    * 10 + digit_val(c));
            }
            let d = c as u32 - '0' as u32;
            r = r * 10 + d;
            i = i + 1;
        }
        proof {
            assert(self@.text.take(self.value@.len() as int) =~= self@.text);
        }
        r
    }

    /// The column span to scan for neighbours, one wider than the run on
    /// each side: the left end stops at column 0, and the right end is
    /// extended only when the run does not already end at `max_x`.
    pub fn x_adjacency_range(&self, max_x: usize) -> (r: core::ops::Range<usize>)
        requires
            self@.x2 <= max_x,
        ensures
            r.start == (if self@.x1 == 0 {
                0nat
            } else {
                (self@.x1 - 1) as nat
            }),
            r.end == (if self@.x2 == max_x {
                self@.x2
            } else {
                self@.x2 + 1
            }),
    {
        let start: usize = if self.x1 == 0 {
            0
        } else {
            self.x1 - 1
        };
        let end: usize = if self.x2 == max_x {
            self.x2
        } else {
            self.x2 + 1
        };
        start..end
    }
}

} // verus!
