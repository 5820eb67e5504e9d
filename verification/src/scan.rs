//! The specification of token extraction: which part numbers a left-to-right
//! scan of each row yields, and in which order.

use vstd::prelude::*;
use crate::cells::is_digit_char;
use crate::token::TokenView;

verus! {

/// The first column of the digit run that ends at or covers column `x`:
/// walks left while the previous cell is a digit.
pub open spec fn run_start(row: Seq<char>, x: int) -> int
    decreases x,
{
    if 0 < x && x <= row.len() && is_digit_char(row[x - 1]) {
        run_start(row, x - 1)
    } else {
        x
    }
}

/// The token whose digit run ends at column `e` of row `y`.
pub open spec fn token_at_end(row: Seq<char>, y: nat, e: int) -> TokenView {
    TokenView {
        y,
        x1: run_start(row, e) as nat,
        x2: e as nat,
        text: row.subrange(run_start(row, e), e + 1),
    }
}

/// The tokens of one row that a left-to-right scan has closed strictly
/// before reaching column `x`: a token is closed when the scan visits the
/// non-digit cell that follows its run.
pub open spec fn closed_tokens_before(row: Seq<char>, y: nat, x: int) -> Seq<TokenView>
    decreases x,
{
    if x <= 1 {
        Seq::empty()
    } else if x <= row.len() && !is_digit_char(row[x - 1]) && is_digit_char(row[x - 2]) {
        closed_tokens_before(row, y, x - 1).push(token_at_end(row, y, x - 2))
    } else {
        closed_tokens_before(row, y, x - 1)
    }
}

/// All tokens of row `y`, left to right: the ones closed by the scan plus,
/// when the row ends in a digit, the run still open at the row's end.
pub open spec fn row_tokens(row: Seq<char>, y: nat) -> Seq<TokenView> {
    if row.len() > 0 && is_digit_char(row.last()) {
        closed_tokens_before(row, y, row.len() as int).push(
            token_at_end(row, y, row.len() - 1),
        )
    } else {
        closed_tokens_before(row, y, row.len() as int)
    }
}

/// The tokens of the first `y` rows of the grid, in (row, column) order.
pub open spec fn tokens_up_to(g: Seq<Seq<char>>, y: int) -> Seq<TokenView>
    decreases y,
{
    if y <= 0 {
        Seq::empty()
    } else {
        tokens_up_to(g, y - 1) + row_tokens(g[y - 1], (y - 1) as nat)
    }
}

/// All tokens of the grid, ordered by row, then by starting column.
pub open spec fn grid_tokens(g: Seq<Seq<char>>) -> Seq<TokenView> {
    tokens_up_to(g, g.len() as int)
}

/// A token that lies inside the grid, covers only digit cells, and whose
/// text is exactly the covered characters.
pub open spec fn token_wf(g: Seq<Seq<char>>, t: TokenView) -> bool {
    &&& t.y < g.len()
    &&& t.x1 <= t.x2 < g[t.y as int].len()
    &&& forall|x: int| t.x1 <= x <= t.x2 ==> is_digit_char(#[trigger] g[t.y as int][x])
    &&& t.text == g[t.y as int].subrange(t.x1 as int, t.x2 + 1int)
}

/// A token is maximal: the cells just left of `x1` and just right of `x2`,
/// where they exist, are not digits.
pub open spec fn token_maximal(g: Seq<Seq<char>>, t: TokenView) -> bool {
    &&& t.x1 == 0 || !is_digit_char(g[t.y as int][t.x1 - 1])
    &&& t.x2 + 1 == g[t.y as int].len() || !is_digit_char(g[t.y as int][t.x2 + 1int])
}

/// The last column of the digit run that starts at or covers column `x`:
/// walks right while the next cell is a digit.
pub open spec fn run_end(row: Seq<char>, x: int) -> int
    decreases row.len() - x,
{
    if 0 <= x && x + 1 < row.len() && is_digit_char(row[x + 1]) {
        run_end(row, x + 1)
    } else {
        x
    }
}

/// What holds of `run_start`: it stays within `[0, e]`, every cell from it
/// up to `e` (exclusive) is a digit, and the cell before it is not.
pub proof fn lemma_run_start_props(row: Seq<char>, e: int)
    requires
        0 <= e < row.len(),
    ensures
        0 <= run_start(row, e) <= e,
        forall|j: int| run_start(row, e) <= j < e ==> is_digit_char(#[trigger] row[j]),
        run_start(row, e) == 0 || !is_digit_char(row[run_start(row, e) - 1]),
    decreases e,
{
    if 0 < e && is_digit_char(row[e - 1]) {
        lemma_run_start_props(row, e - 1);
    }
}

/// The run ending at `e` never starts past `e`.
pub proof fn lemma_run_start_ub(row: Seq<char>, e: int)
    ensures
        run_start(row, e) <= e,
    decreases e,
{
    if 0 < e && e <= row.len() && is_digit_char(row[e - 1]) {
        lemma_run_start_ub(row, e - 1);
    }
}

/// When every cell from `x` up to `e` (exclusive) is a digit, the run
/// ending at `e` starts at or before `x`.
pub proof fn lemma_run_start_le(row: Seq<char>, x: int, e: int)
    requires
        0 <= x <= e <= row.len(),
        forall|j: int| x <= j < e ==> is_digit_char(#[trigger] row[j]),
    ensures
        run_start(row, e) <= x,
    decreases e - x,
{
    if x < e {
        assert(is_digit_char(row[e - 1]));
        lemma_run_start_le(row, x, e - 1);
    } else {
        lemma_run_start_ub(row, e);
    }
}

/// What holds of `run_end` at a digit cell: it stays within the row, every
/// cell from `x` through it is a digit, the cell after it (if any) is not,
/// and the run's start lies at or before `x`.
pub proof fn lemma_run_end_props(row: Seq<char>, x: int)
    requires
        0 <= x < row.len(),
        is_digit_char(row[x]),
    ensures
        x <= run_end(row, x) < row.len(),
        forall|j: int| x <= j <= run_end(row, x) ==> is_digit_char(#[trigger] row[j]),
        run_end(row, x) + 1 == row.len() || !is_digit_char(row[run_end(row, x) + 1]),
        run_start(row, run_end(row, x)) <= x,
    decreases row.len() - x,
{
    if x + 1 < row.len() && is_digit_char(row[x + 1]) {
        lemma_run_end_props(row, x + 1);
        lemma_run_start_le(row, x, run_end(row, x));
    } else {
        lemma_run_start_le(row, x, x);
    }
}

/// What the scan has established about one closed token of a row by the
/// time it reaches column `x`.
pub open spec fn closed_token_ok(row: Seq<char>, y: nat, x: int, t: TokenView) -> bool {
    &&& t.y == y
    &&& t.x1 <= t.x2
    &&& t.x2 + 2 <= x
    &&& forall|j: int| t.x1 <= j <= t.x2 ==> is_digit_char(#[trigger] row[j])
    &&& t.x1 == 0 || !is_digit_char(row[t.x1 - 1])
    &&& !is_digit_char(row[t.x2 + 1int])
    &&& t.text == row.subrange(t.x1 as int, t.x2 + 1int)
}

/// The tokens closed before column `x` are well formed, closed, pairwise
/// disjoint in scan order, and cover every digit cell whose run ended at
/// least two columns back.
pub proof fn lemma_closed_tokens_props(row: Seq<char>, y: nat, x: int)
    requires
        0 <= x <= row.len(),
    ensures
        forall|i: int|
            0 <= i < closed_tokens_before(row, y, x).len() ==> closed_token_ok(
                row,
                y,
                x,
                #[trigger] closed_tokens_before(row, y, x)[i],
            ),
        forall|i: int, j: int|
            0 <= i < j < closed_tokens_before(row, y, x).len()
                ==> (#[trigger] closed_tokens_before(row, y, x)[i]).x2
                < (#[trigger] closed_tokens_before(row, y, x)[j]).x1,
        forall|xp: int|
            0 <= xp < row.len() && is_digit_char(row[xp]) && run_end(row, xp) + 2 <= x
                ==> exists|i: int|
                0 <= i < closed_tokens_before(row, y, x).len()
                    && (#[trigger] closed_tokens_before(row, y, x)[i]).x1 <= xp
                    <= closed_tokens_before(row, y, x)[i].x2,
    decreases x,
{
    if x <= 1 {
        // no token can have closed yet
        assert forall|xp: int|
            0 <= xp < row.len() && is_digit_char(row[xp]) && run_end(row, xp) + 2
                <= x implies false by {
            lemma_run_end_props(row, xp);
        };
    } else {
        lemma_closed_tokens_props(row, y, x - 1);
        let prev = closed_tokens_before(row, y, x - 1);
        let cur = closed_tokens_before(row, y, x);
        if x <= row.len() && !is_digit_char(row[x - 1]) && is_digit_char(row[x - 2]) {
            let t = token_at_end(row, y, x - 2);
            lemma_run_start_props(row, x - 2);
            assert(closed_token_ok(row, y, x, t));
            // the new token starts after every previously closed one
            assert forall|i: int| 0 <= i < prev.len() implies prev[i].x2 < t.x1 by {
                let p = prev[i];
                if t.x1 <= p.x2 + 1 {
                    assert(is_digit_char(row[p.x2 + 1int]));
                }
            };
            // every digit cell whose run closed by now is covered
            assert forall|xp: int|
                0 <= xp < row.len() && is_digit_char(row[xp]) && run_end(row, xp) + 2
                    <= x implies exists|i: int|
                0 <= i < cur.len() && (#[trigger] cur[i]).x1 <= xp <= cur[i].x2 by {
                lemma_run_end_props(row, xp);
                if run_end(row, xp) + 2 <= x - 1 {
                    let i = choose|i: int|
                        0 <= i < prev.len() && (#[trigger] prev[i]).x1 <= xp <= prev[i].x2;
                    assert(cur[i].x1 <= xp <= cur[i].x2);
                } else {
                    assert(run_end(row, xp) == x - 2);
                    assert(run_start(row, x - 2) <= xp);
                    assert(cur[cur.len() - 1].x1 <= xp <= cur[cur.len() - 1].x2);
                }
            };
        } else {
            assert forall|xp: int|
                0 <= xp < row.len() && is_digit_char(row[xp]) && run_end(row, xp) + 2
                    <= x implies exists|i: int|
                0 <= i < cur.len() && (#[trigger] cur[i]).x1 <= xp <= cur[i].x2 by {
                lemma_run_end_props(row, xp);
                if run_end(row, xp) + 2 == x {
                    // the run would have been closed exactly here
                    assert(is_digit_char(row[x - 2]));
                    assert(run_end(row, xp) + 1 == x - 1 < row.len());
                    assert(!is_digit_char(row[x - 1]));
                    assert(false);
                }
                assert(run_end(row, xp) + 2 <= x - 1);
            };
        }
    }
}

/// What holds of every token of a fully scanned row: well formed within
/// the row, maximal on both sides, pairwise disjoint in scan order, and
/// together covering every digit cell of the row.
pub proof fn lemma_row_tokens_props(row: Seq<char>, y: nat)
    ensures
        forall|i: int|
            0 <= i < row_tokens(row, y).len() ==> {
                let t = #[trigger] row_tokens(row, y)[i];
                &&& t.y == y
                &&& t.x1 <= t.x2 < row.len()
                &&& (forall|j: int| t.x1 <= j <= t.x2 ==> is_digit_char(#[trigger] row[j]))
                &&& (t.x1 == 0 || !is_digit_char(row[t.x1 - 1]))
                &&& (t.x2 + 1 == row.len() || !is_digit_char(row[t.x2 + 1int]))
                &&& t.text == row.subrange(t.x1 as int, t.x2 + 1int)
            },
        forall|i: int, j: int|
            0 <= i < j < row_tokens(row, y).len() ==> (#[trigger] row_tokens(row, y)[i]).x2
                < (#[trigger] row_tokens(row, y)[j]).x1,
        forall|xp: int|
            0 <= xp < row.len() && is_digit_char(row[xp]) ==> exists|i: int|
                0 <= i < row_tokens(row, y).len() && (#[trigger] row_tokens(row, y)[i]).x1 <= xp
                    <= row_tokens(row, y)[i].x2,
{
    let n = row.len() as int;
    lemma_closed_tokens_props(row, y, n);
    let closed = closed_tokens_before(row, y, n);
    let toks = row_tokens(row, y);
    if n > 0 && is_digit_char(row[n - 1]) {
        let t = token_at_end(row, y, n - 1);
        lemma_run_start_props(row, n - 1);
        assert forall|i: int| 0 <= i < closed.len() implies closed[i].x2 < t.x1 by {
            let p = closed[i];
            if t.x1 <= p.x2 + 1 {
                assert(is_digit_char(row[p.x2 + 1int]));
            }
        };
        assert forall|xp: int|
            0 <= xp < row.len() && is_digit_char(row[xp]) implies exists|i: int|
            0 <= i < toks.len() && (#[trigger] toks[i]).x1 <= xp <= toks[i].x2 by {
            lemma_run_end_props(row, xp);
            if run_end(row, xp) + 2 <= n {
                let i = choose|i: int|
                    0 <= i < closed.len() && (#[trigger] closed[i]).x1 <= xp <= closed[i].x2;
                assert(toks[i].x1 <= xp <= toks[i].x2);
            } else {
                // the run reaches the row's end
                assert(run_end(row, xp) == n - 1);
                lemma_run_start_le(row, xp, n - 1);
                assert(toks[toks.len() - 1].x1 <= xp <= toks[toks.len() - 1].x2);
            }
        };
    } else {
        assert forall|xp: int|
            0 <= xp < row.len() && is_digit_char(row[xp]) implies exists|i: int|
            0 <= i < toks.len() && (#[trigger] toks[i]).x1 <= xp <= toks[i].x2 by {
            lemma_run_end_props(row, xp);
            assert(run_end(row, xp) + 1 <= n - 1 || run_end(row, xp) == n - 1);
            if run_end(row, xp) == n - 1 {
                assert(is_digit_char(row[n - 1]));
                assert(false);
            }
            assert(run_end(row, xp) + 2 <= n);
        };
    }
}

/// Every token of the first `y` rows is well formed, maximal, lies in a
/// row before `y`, and the list is sorted by row with rows' tokens
/// disjoint; every digit cell of those rows is covered by some token.
pub proof fn lemma_tokens_up_to_props(g: Seq<Seq<char>>, y: int)
    requires
        0 <= y <= g.len(),
    ensures
        forall|i: int|
            0 <= i < tokens_up_to(g, y).len() ==> token_wf(g, #[trigger] tokens_up_to(g, y)[i])
                && token_maximal(g, tokens_up_to(g, y)[i]) && tokens_up_to(g, y)[i].y < y,
        forall|i: int, j: int|
            0 <= i < j < tokens_up_to(g, y).len() ==> (#[trigger] tokens_up_to(g, y)[i]).y
                < (#[trigger] tokens_up_to(g, y)[j]).y || (tokens_up_to(g, y)[i].y == tokens_up_to(
                g,
                y,
            )[j].y && tokens_up_to(g, y)[i].x2 < tokens_up_to(g, y)[j].x1),
        forall|yp: int, xp: int|
            0 <= yp < y && 0 <= xp < g[yp].len() && is_digit_char(#[trigger] g[yp][xp]) ==> exists|
                i: int,
            |
                0 <= i < tokens_up_to(g, y).len() && (#[trigger] tokens_up_to(g, y)[i]).y == yp
                    && tokens_up_to(g, y)[i].x1 <= xp <= tokens_up_to(g, y)[i].x2,
    decreases y,
{
    if y > 0 {
        lemma_tokens_up_to_props(g, y - 1);
        lemma_row_tokens_props(g[y - 1], (y - 1) as nat);
        let prev = tokens_up_to(g, y - 1);
        let rowt = row_tokens(g[y - 1], (y - 1) as nat);
        let cur = tokens_up_to(g, y);
        assert(cur == prev + rowt);
        assert forall|yp: int, xp: int|
            0 <= yp < y && 0 <= xp < g[yp].len() && is_digit_char(
                #[trigger] g[yp][xp],
            ) implies exists|i: int|
            0 <= i < cur.len() && (#[trigger] cur[i]).y == yp && cur[i].x1 <= xp <= cur[i].x2 by {
            if yp < y - 1 {
                let i = choose|i: int|
                    0 <= i < prev.len() && (#[trigger] prev[i]).y == yp && prev[i].x1 <= xp
                        <= prev[i].x2;
                assert(cur[i].y == yp && cur[i].x1 <= xp <= cur[i].x2);
            } else {
                let i = choose|i: int|
                    0 <= i < rowt.len() && (#[trigger] rowt[i]).x1 <= xp <= rowt[i].x2;
                assert(cur[prev.len() + i].y == yp && cur[prev.len() + i].x1 <= xp <= cur[prev.len()
                    + i].x2);
            }
        };
    }
}

/// Every extracted token is well formed and maximal.
pub proof fn lemma_grid_tokens_wf(g: Seq<Seq<char>>)
    ensures
        forall|i: int|
            0 <= i < grid_tokens(g).len() ==> token_wf(g, #[trigger] grid_tokens(g)[i])
                && token_maximal(g, grid_tokens(g)[i]),
{
    lemma_tokens_up_to_props(g, g.len() as int);
}

} // verus!
