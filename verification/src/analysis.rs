//! Adjacency between tokens and cells, gear classification, and the two
//! sums the analyzer reports.

use vstd::prelude::*;
use crate::cells::is_symbol_char;
use crate::scan::grid_tokens;
use crate::token::{token_val, TokenView};

verus! {

/// Cell (`x`, `y`) lies in the 8-connected neighbourhood of the token's
/// run: within one column of its span and within one row of its row.
pub open spec fn token_adjacent_to(t: TokenView, x: int, y: int) -> bool {
    &&& t.x1 - 1 <= x <= t.x2 + 1
    &&& t.y - 1 <= y <= t.y + 1
}

/// Some in-bounds symbol cell is adjacent to the token.
pub open spec fn symbol_adjacent(g: Seq<Seq<char>>, t: TokenView) -> bool {
    exists|y: int, x: int|
        0 <= y < g.len() && 0 <= x < g[y].len() && is_symbol_char(#[trigger] g[y][x])
            && token_adjacent_to(t, x, y)
}

/// Among the first `i` extracted tokens, the ones adjacent to cell
/// (`x`, `y`), in extraction order.
pub open spec fn adjacent_tokens_up_to(g: Seq<Seq<char>>, x: int, y: int, i: int) -> Seq<
    TokenView,
> {
    grid_tokens(g).take(i).filter(|t: TokenView| token_adjacent_to(t, x, y))
}

/// The grid's tokens adjacent to cell (`x`, `y`), in extraction order.
pub open spec fn adjacent_tokens(g: Seq<Seq<char>>, x: int, y: int) -> Seq<TokenView> {
    adjacent_tokens_up_to(g, x, y, grid_tokens(g).len() as int)
}

/// Cell (`x`, `y`) is a gear: it holds `'*'` and exactly two tokens are
/// adjacent to it.
pub open spec fn gear_at(g: Seq<Seq<char>>, x: int, y: int) -> bool {
    &&& 0 <= y < g.len()
    &&& 0 <= x < g[y].len()
    &&& g[y][x] == '*'
    &&& adjacent_tokens(g, x, y).len() == 2
}

/// Some gear cell is adjacent to the token.
pub open spec fn gear_adjacent(g: Seq<Seq<char>>, t: TokenView) -> bool {
    exists|y: int, x: int| #[trigger] gear_at(g, x, y) && token_adjacent_to(t, x, y)
}

/// The product of the two adjacent tokens' values at a gear cell.
pub open spec fn gear_ratio(g: Seq<Seq<char>>, x: int, y: int) -> nat {
    token_val(adjacent_tokens(g, x, y)[0].text) * token_val(adjacent_tokens(g, x, y)[1].text)
}

/// The sum of the values of a sequence of tokens.
pub open spec fn sum_token_vals(s: Seq<TokenView>) -> nat
    decreases s.len(),
{
    if s.len() == 0 {
        0
    } else {
        sum_token_vals(s.drop_last()) + token_val(s.last().text)
    }
}

/// The sum of the values of the symbol-adjacent tokens among the first `i`
/// extracted ones.
pub open spec fn part_sum_up_to(g: Seq<Seq<char>>, i: int) -> nat {
    sum_token_vals(grid_tokens(g).take(i).filter(|t: TokenView| symbol_adjacent(g, t)))
}

/// The sum of the values of all tokens adjacent to some symbol.
pub open spec fn part_number_sum(g: Seq<Seq<char>>) -> nat {
    part_sum_up_to(g, grid_tokens(g).len() as int)
}

/// What cell (`x`, `y`) contributes to the gear-ratio sum.
pub open spec fn gear_cell_value(g: Seq<Seq<char>>, x: int, y: int) -> nat {
    if gear_at(g, x, y) {
        gear_ratio(g, x, y)
    } else {
        0
    }
}

/// The gear contributions of the first `y` cells of column `x`.
pub open spec fn column_gear_sum(g: Seq<Seq<char>>, x: int, y: int) -> nat
    decreases y,
{
    if y <= 0 {
        0
    } else {
        column_gear_sum(g, x, y - 1) + gear_cell_value(g, x, y - 1)
    }
}

/// The gear contributions of the first `x` whole columns.
pub open spec fn gear_sum_up_to(g: Seq<Seq<char>>, x: int) -> nat
    decreases x,
{
    if x <= 0 {
        0
    } else {
        gear_sum_up_to(g, x - 1) + column_gear_sum(g, x - 1, g.len() as int)
    }
}

/// The sum of the gear ratios over every cell of a grid with `cols`
/// columns.
pub open spec fn gear_ratio_sum(g: Seq<Seq<char>>, cols: int) -> nat {
    gear_sum_up_to(g, cols)
}

/// Appending a token adds its value to the sum.
pub proof fn lemma_sum_push(s: Seq<TokenView>, t: TokenView)
    ensures
        sum_token_vals(s.push(t)) == sum_token_vals(s) + token_val(t.text),
{
    assert(s.push(t).drop_last() =~= s);
    assert(s.push(t).last() == t);
}

/// One scan step of the adjacency filter: considering one more token
/// either appends it or changes nothing.
pub proof fn lemma_adjacent_tokens_step(g: Seq<Seq<char>>, x: int, y: int, i: int)
    requires
        0 <= i < grid_tokens(g).len(),
    ensures
        token_adjacent_to(grid_tokens(g)[i], x, y) ==> adjacent_tokens_up_to(g, x, y, i + 1)
            == adjacent_tokens_up_to(g, x, y, i).push(grid_tokens(g)[i]),
        !token_adjacent_to(grid_tokens(g)[i], x, y) ==> adjacent_tokens_up_to(g, x, y, i + 1)
            == adjacent_tokens_up_to(g, x, y, i),
{
    reveal(Seq::filter);
    let s = grid_tokens(g);
    assert(s.take(i + 1).drop_last() =~= s.take(i));
    assert(s.take(i + 1).last() == s[i]);
    assert(s.take(i + 1).len() == i + 1);
}

/// One scan step of the part-number sum: considering one more token adds
/// its value exactly when it is adjacent to a symbol.
pub proof fn lemma_part_sum_step(g: Seq<Seq<char>>, i: int)
    requires
        0 <= i < grid_tokens(g).len(),
    ensures
        symbol_adjacent(g, grid_tokens(g)[i]) ==> part_sum_up_to(g, i + 1) == part_sum_up_to(g, i)
            + token_val(grid_tokens(g)[i].text),
        !symbol_adjacent(g, grid_tokens(g)[i]) ==> part_sum_up_to(g, i + 1) == part_sum_up_to(g, i),
{
    reveal(Seq::filter);
    let s = grid_tokens(g);
    assert(s.take(i + 1).drop_last() =~= s.take(i));
    assert(s.take(i + 1).last() == s[i]);
    assert(s.take(i + 1).len() == i + 1);
    if symbol_adjacent(g, s[i]) {
        lemma_sum_push(s.take(i).filter(|t: TokenView| symbol_adjacent(g, t)), s[i]);
    }
}

/// A partial part-number sum never exceeds the full one.
pub proof fn lemma_part_sum_le(g: Seq<Seq<char>>, i: int)
    requires
        0 <= i <= grid_tokens(g).len(),
    ensures
        part_sum_up_to(g, i) <= part_number_sum(g),
    decreases grid_tokens(g).len() - i,
{
    if i < grid_tokens(g).len() {
        lemma_part_sum_step(g, i);
        lemma_part_sum_le(g, i + 1);
    }
}

/// Every token among the adjacent ones is adjacent to the cell and occurs
/// among the extracted tokens.
pub proof fn lemma_adjacent_tokens_elem(g: Seq<Seq<char>>, x: int, y: int, i: int, k: int)
    requires
        0 <= i <= grid_tokens(g).len(),
        0 <= k < adjacent_tokens_up_to(g, x, y, i).len(),
    ensures
        token_adjacent_to(adjacent_tokens_up_to(g, x, y, i)[k], x, y),
        exists|j: int|
            0 <= j < grid_tokens(g).len() && #[trigger] grid_tokens(g)[j] == adjacent_tokens_up_to(
                g,
                x,
                y,
                i,
            )[k],
    decreases i,
{
    if i == 0 {
        reveal(Seq::filter);
        assert(grid_tokens(g).take(0).len() == 0);
    } else {
        lemma_adjacent_tokens_step(g, x, y, i - 1);
        if token_adjacent_to(grid_tokens(g)[i - 1], x, y) {
            if k < adjacent_tokens_up_to(g, x, y, i - 1).len() {
                lemma_adjacent_tokens_elem(g, x, y, i - 1, k);
            } else {
                assert(adjacent_tokens_up_to(g, x, y, i)[k] == grid_tokens(g)[i - 1]);
            }
        } else {
            lemma_adjacent_tokens_elem(g, x, y, i - 1, k);
        }
    }
}

/// What one cell and the columns before it contribute never exceeds the
/// whole gear-ratio sum.
pub proof fn lemma_gear_partial_le(g: Seq<Seq<char>>, cols: int, x: int, y: int)
    requires
        0 <= x < cols,
        0 <= y < g.len(),
    ensures
        gear_sum_up_to(g, x) + column_gear_sum(g, x, y) + gear_cell_value(g, x, y)
            <= gear_ratio_sum(g, cols),
{
    lemma_column_gear_sum_le(g, x, y + 1, g.len() as int);
    lemma_gear_sum_up_to_le(g, x + 1, cols);
}

/// Column sums only grow as more of the column is covered.
pub proof fn lemma_column_gear_sum_le(g: Seq<Seq<char>>, x: int, y1: int, y2: int)
    requires
        y1 <= y2,
    ensures
        column_gear_sum(g, x, y1) <= column_gear_sum(g, x, y2),
    decreases y2 - y1,
{
    if y1 < y2 {
        lemma_column_gear_sum_le(g, x, y1, y2 - 1);
    }
}

/// Whole-grid gear sums only grow as more columns are covered.
pub proof fn lemma_gear_sum_up_to_le(g: Seq<Seq<char>>, x1: int, x2: int)
    requires
        x1 <= x2,
    ensures
        gear_sum_up_to(g, x1) <= gear_sum_up_to(g, x2),
    decreases x2 - x1,
{
    if x1 < x2 {
        lemma_gear_sum_up_to_le(g, x1, x2 - 1);
    }
}

} // verus!
