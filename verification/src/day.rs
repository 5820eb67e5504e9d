//! The day's computation: the gear-ratio sum of a loaded schematic.

use vstd::prelude::*;
use crate::analysis::{gear_ratio_sum, symbol_adjacent};
use crate::scan::grid_tokens;
use crate::schematic::Schematic;
use crate::token::token_val;

verus! {

/// The entry point of the analysis run.
pub struct Day;

impl Day {
    /// Runs the analysis on a loaded schematic and returns the sum of its
    /// gear ratios.
    pub fn run(&self, schematic: &Schematic) -> (r: u32)
        requires
            gear_ratio_sum(schematic@, schematic.spec_cols() as int) <= u32::MAX,
            forall|i: int|
                0 <= i < grid_tokens(schematic@).len() && symbol_adjacent(
                    schematic@,
                    #[trigger] grid_tokens(schematic@)[i],
                ) ==> token_val(grid_tokens(schematic@)[i].text) <= u32::MAX,
        ensures
            r as nat == gear_ratio_sum(schematic@, schematic.spec_cols() as int),
    {
        schematic.sum_of_gear_ratios()
    }
}

} // verus!
