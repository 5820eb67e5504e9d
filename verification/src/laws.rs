//! Grid-wide guarantees of the analysis, stated and proved once.

use vstd::prelude::*;
use crate::analysis::{
    column_gear_sum, gear_at, gear_cell_value, gear_ratio_sum, lemma_part_sum_step,
    part_number_sum, part_sum_up_to, symbol_adjacent,
};
use crate::cells::{is_digit_char, is_symbol_char};
use crate::scan::{grid_tokens, lemma_tokens_up_to_props, token_maximal, token_wf, tokens_up_to};
use crate::token::TokenView;

verus! {

/// Token `t` covers the digit cell at column `x` of row `y`.
pub open spec fn token_covers(t: TokenView, y: int, x: int) -> bool {
    t.y == y && t.x1 <= x <= t.x2
}

/// No prefix of the tokens contributes to the part-number sum of a grid
/// without symbols.
proof fn lemma_no_symbols_part_sum(g: Seq<Seq<char>>, i: int)
    requires
        0 <= i <= grid_tokens(g).len(),
        forall|y: int, x: int|
            0 <= y < g.len() && 0 <= x < g[y].len() ==> !is_symbol_char(#[trigger] g[y][x]),
    ensures
        part_sum_up_to(g, i) == 0,
    decreases i,
{
    if i == 0 {
        reveal(Seq::filter);
        assert(grid_tokens(g).take(0).len() == 0);
    } else {
        lemma_no_symbols_part_sum(g, i - 1);
        lemma_part_sum_step(g, i - 1);
        assert(!symbol_adjacent(g, grid_tokens(g)[i - 1]));
    }
}

/// No cell of a symbol-free grid is a gear, so no column contributes.
proof fn lemma_no_symbols_column_sum(g: Seq<Seq<char>>, x: int, y: int)
    requires
        forall|y: int, x: int|
            0 <= y < g.len() && 0 <= x < g[y].len() ==> !is_symbol_char(#[trigger] g[y][x]),
    ensures
        column_gear_sum(g, x, y) == 0,
    decreases y,
{
    if y > 0 {
        lemma_no_symbols_column_sum(g, x, y - 1);
        assert(!gear_at(g, x, y - 1)) by {
            if gear_at(g, x, y - 1) {
                assert(is_symbol_char(g[y - 1][x]));
            }
        };
        assert(gear_cell_value(g, x, y - 1) == 0);
    }
}

/// In a grid with no symbol cells, no part number is adjacent to a symbol
/// and no cell is a gear, so the part-number sum and the gear-ratio sum
/// are both zero.
pub proof fn lemma_no_symbols_zero_sums(g: Seq<Seq<char>>, cols: int)
    requires
        forall|y: int, x: int|
            0 <= y < g.len() && 0 <= x < g[y].len() ==> !is_symbol_char(#[trigger] g[y][x]),
    ensures
        part_number_sum(g) == 0,
        gear_ratio_sum(g, cols) == 0,
    decreases cols,
{
    lemma_no_symbols_part_sum(g, grid_tokens(g).len() as int);
    if cols > 0 {
        lemma_no_symbols_zero_sums(g, cols - 1);
        lemma_no_symbols_column_sum(g, cols - 1, g.len() as int);
    }
}

/// Every digit cell of the grid belongs to exactly one extracted token,
/// and every token reads back the grid: its text is exactly the digit
/// characters it covers, so the tokens of a row, taken in order,
/// reconstruct the row's digit positions.
pub proof fn lemma_digit_in_unique_token(g: Seq<Seq<char>>, y: int, x: int)
    requires
        0 <= y < g.len(),
        0 <= x < g[y].len(),
        is_digit_char(g[y][x]),
    ensures
        exists|i: int|
            0 <= i < grid_tokens(g).len() && token_covers(#[trigger] grid_tokens(g)[i], y, x),
        forall|i: int, j: int|
            0 <= i < grid_tokens(g).len() && 0 <= j < grid_tokens(g).len() && token_covers(
                #[trigger] grid_tokens(g)[i],
                y,
                x,
            ) && token_covers(#[trigger] grid_tokens(g)[j], y, x) ==> i == j,
        forall|i: int|
            0 <= i < grid_tokens(g).len() ==> token_wf(g, #[trigger] grid_tokens(g)[i])
                && token_maximal(g, grid_tokens(g)[i]),
{
    lemma_tokens_up_to_props(g, g.len() as int);
    let toks = tokens_up_to(g, g.len() as int);
    let i = choose|i: int|
        0 <= i < toks.len() && (#[trigger] toks[i]).y == y && toks[i].x1 <= x <= toks[i].x2;
    assert(0 <= i < grid_tokens(g).len() && token_covers(grid_tokens(g)[i], y, x));
}

} // verus!
