//! The schematic analyzer: a rectangular character grid together with the
//! queries over it.

use vstd::prelude::*;
use crate::analysis::{
    adjacent_tokens, adjacent_tokens_up_to, column_gear_sum, gear_adjacent, gear_at,
    gear_ratio_sum, gear_sum_up_to, lemma_adjacent_tokens_elem, lemma_adjacent_tokens_step,
    lemma_gear_partial_le, lemma_part_sum_le, lemma_part_sum_step, part_number_sum,
    part_sum_up_to, symbol_adjacent, token_adjacent_to,
};
use crate::cells::{is_digit, is_digit_char, is_symbol, is_symbol_char};
use crate::grid::{
    arr_from_rows, grid_cols, grid_column_len, grid_get, grid_row_len, grid_view, rows_rect,
    GridError,
};
use crate::scan::{
    closed_tokens_before, grid_tokens, lemma_grid_tokens_wf, row_tokens, run_start, token_at_end,
    tokens_up_to,
};
use crate::token::{token_val, PartNumber, TokenView};

verus! {

/// The mathematical tokens a sequence of part numbers stands for.
pub open spec fn views_of(s: Seq<PartNumber>) -> Seq<TokenView> {
    s.map_values(|p: PartNumber| p@)
}

/// A rectangular character grid under analysis.
pub struct Schematic {
    data: array2d::Array2D<char>,
}

impl View for Schematic {
    type V = Seq<Seq<char>>;

    closed spec fn view(&self) -> Seq<Seq<char>> {
        grid_view(self.data)
    }
}

impl Schematic {
    /// The column count shared by every row of the grid.
    pub closed spec fn spec_cols(&self) -> nat {
        grid_cols(self.data)
    }

    #[verifier::type_invariant]
    spec fn wf(&self) -> bool {
        forall|y: int| 0 <= y < self@.len() ==> (#[trigger] self@[y]).len() == self.spec_cols()
    }

    /// Builds a schematic from rows of characters; every row must have the
    /// first row's length.
    pub fn from_rows(rows: &Vec<Vec<char>>) -> (r: Result<Schematic, GridError>)
        ensures
            r.is_ok() <==> rows_rect(rows.deep_view()),
            r matches Ok(s) ==> s@ == rows.deep_view() && s.spec_cols() == (
            if rows.deep_view().len() == 0 {
                0nat
            } else {
                rows.deep_view()[0].len()
            }),
            r matches Err(e) ==> e == GridError::DimensionMismatch,
    {
        match arr_from_rows(rows) {
            Ok(a) => Ok(Schematic { data: a }),
            Err(_) => Err(GridError::DimensionMismatch),
        }
    }

    /// The number of rows.
    pub fn row_count(&self) -> (r: usize)
        ensures
            r == self@.len(),
    {
        grid_column_len(&self.data)
    }

    /// The number of columns.
    pub fn col_count(&self) -> (r: usize)
        ensures
            r == self.spec_cols(),
            forall|y: int| 0 <= y < self@.len() ==> (#[trigger] self@[y]).len() == self.spec_cols(),
    {
        proof {
            use_type_invariant(&*self);
        }
        grid_row_len(&self.data)
    }

    /// The character at column `x` of row `y`, or `OutOfBounds` when either
    /// index lies outside the grid.
    pub fn at(&self, x: usize, y: usize) -> (r: Result<char, GridError>)
        ensures
            y < self@.len() && x < self.spec_cols() ==> r == Ok::<char, GridError>(
                self@[y as int][x as int],
            ),
            !(y < self@.len() && x < self.spec_cols()) ==> r == Err::<char, GridError>(
                GridError::OutOfBounds,
            ),
    {
        match grid_get(&self.data, y, x) {
            Some(c) => Ok(c),
            None => Err(GridError::OutOfBounds),
        }
    }

    /// Whether the in-bounds cell at column `x` of row `y` is a digit.
    pub fn is_number_at(&self, x: usize, y: usize) -> (r: bool)
        requires
            y < self@.len(),
            x < self.spec_cols(),
        ensures
            r == is_digit_char(self@[y as int][x as int]),
    {
        let c = grid_get(&self.data, y, x).unwrap();
        is_digit(c)
    }

    /// Scans the grid once, each row left to right, and returns every part
    /// number: one entry per maximal horizontal run of digit characters,
    /// ordered by row and then by starting column.
    #[verifier::loop_isolation(false)]
    pub fn get_part_numbers(&self) -> (r: Vec<PartNumber>)
        ensures
            views_of(r@) == grid_tokens(self@),
    {
        proof {
            use_type_invariant(&*self);
        }
        let ghost g = self@;
        let rows = grid_column_len(&self.data);
        let cols = grid_row_len(&self.data);
        let mut parts: Vec<PartNumber> = Vec::new();
        let mut y: usize = 0;
        while y < rows
            invariant
                0 <= y <= rows,
                views_of(parts@) == tokens_up_to(g, y as int),
            decreases rows - y,
        {
            let ghost row = g[y as int];
            let mut x: usize = 0;
            let mut building = false;
            let mut x1: usize = 0;
            let mut value: Vec<char> = Vec::new();
            while x < cols
                invariant
                    0 <= x <= cols,
                    y < rows,
                    views_of(parts@) == tokens_up_to(g, y as int) + closed_tokens_before(
                        row,
                        y as nat,
                        x as int,
                    ),
                    building ==> 1 <= x && x1 < x && is_digit_char(row[x - 1]) && x1 as int
                        == run_start(row, x - 1) && value@ == row.subrange(x1 as int, x as int),
                    !building ==> value@ == Seq::<char>::empty() && (x == 0 || !is_digit_char(
                        row[x - 1],
                    )),
                decreases cols - x,
            {
                let c = grid_get(&self.data, y, x).unwrap();
                if is_digit(c) {
                    if building {
                        value.push(c);
                        proof {
                            assert(row.subrange(x1 as int, x as int).push(c) =~= row.subrange(
                                x1 as int,
                                x + 1,
                            ));
                        }
                    } else {
                        building = true;
                        x1 = x;
                        value.push(c);
                        proof {
                            assert(value@ =~= row.subrange(x as int, x + 1));
                        }
                    }
                } else {
                    if building {
                        let pn = PartNumber { y, x1, x2: x - 1, value };
                        value = Vec::new();
                        proof {
                            assert(pn@ == token_at_end(row, y as nat, x - 1));
                            assert(views_of(parts@.push(pn)) =~= views_of(parts@).push(pn@));
                            assert(tokens_up_to(g, y as int) + closed_tokens_before(
                                row,
                                y as nat,
                                x as int,
                            ).push(pn@) =~= (tokens_up_to(g, y as int) + closed_tokens_before(
                                row,
                                y as nat,
                                x as int,
                            )).push(pn@));
                        }
                        parts.push(pn);
                        building = false;
                    }
                }
                x = x + 1;
            }
            if building {
                let pn = PartNumber { y, x1, x2: cols - 1, value };
                proof {
                    assert(pn@ == token_at_end(row, y as nat, cols - 1));
                    assert(views_of(parts@.push(pn)) =~= views_of(parts@).push(pn@));
                    assert(tokens_up_to(g, y as int) + closed_tokens_before(
                        row,
                        y as nat,
                        cols as int,
                    ).push(pn@) =~= (tokens_up_to(g, y as int) + closed_tokens_before(
                        row,
                        y as nat,
                        cols as int,
                    )).push(pn@));
                    assert(row_tokens(row, y as nat) == closed_tokens_before(
                        row,
                        y as nat,
                        cols as int,
                    ).push(token_at_end(row, y as nat, cols - 1)));
                }
                parts.push(pn);
            } else {
                proof {
                    assert(row_tokens(row, y as nat) == closed_tokens_before(
                        row,
                        y as nat,
                        cols as int,
                    ));
                }
            }
            y = y + 1;
        }
        parts
    }

    /// Whether the in-bounds cell at column `x` of row `y` is a symbol.
    pub fn is_symbol_at(&self, x: usize, y: usize) -> (r: bool)
        requires
            y < self@.len(),
            x < self.spec_cols(),
        ensures
            r == is_symbol_char(self@[y as int][x as int]),
    {
        let c = grid_get(&self.data, y, x).unwrap();
        is_symbol(&c)
    }

    /// The clamped scan box around a part number's run: the columns
    /// `[r.0, r.1]` and rows `[r.2, r.3]` to test, never reaching outside
    /// the grid, and covering exactly the in-bounds cells adjacent to the
    /// token.
    pub fn adjacency_bounds(&self, p: &PartNumber) -> (r: (usize, usize, usize, usize))
        requires
            p@.y < self@.len(),
            p@.x1 <= p@.x2 < self.spec_cols(),
        ensures
            r.0 <= r.1 < self.spec_cols(),
            r.2 <= r.3 < self@.len(),
            r.1 < usize::MAX,
            r.3 < usize::MAX,
            forall|x: int, y: int|
                0 <= x < self.spec_cols() && 0 <= y < self@.len() ==> ((r.0 <= x <= r.1 && r.2 <= y
                    <= r.3) <==> token_adjacent_to(p@, x, y)),
    {
        let rows = grid_column_len(&self.data);
        let cols = grid_row_len(&self.data);
        let xlo: usize = if p.x1 == 0 {
            0
        } else {
            p.x1 - 1
        };
        let xhi: usize = if p.x2 + 1 <= cols - 1 {
            p.x2 + 1
        } else {
            cols - 1
        };
        let ylo: usize = if p.y == 0 {
            0
        } else {
            p.y - 1
        };
        let yhi: usize = if p.y + 1 <= rows - 1 {
            p.y + 1
        } else {
            rows - 1
        };
        (xlo, xhi, ylo, yhi)
    }

    /// All part numbers whose adjacency range contains cell (`x`, `y`), in
    /// extraction order.
    #[verifier::loop_isolation(false)]
    pub fn get_part_numbers_adjacent_to(&self, x: usize, y: usize) -> (r: Vec<PartNumber>)
        ensures
            views_of(r@) == adjacent_tokens(self@, x as int, y as int),
    {
        proof {
            use_type_invariant(&*self);
        }
        let ghost g = self@;
        let parts = self.get_part_numbers();
        proof {
            lemma_grid_tokens_wf(g);
        }
        let max_x = grid_row_len(&self.data);
        let mut adjacents: Vec<PartNumber> = Vec::new();
        let mut i: usize = 0;
        while i < parts.len()
            invariant
                0 <= i <= parts.len(),
                views_of(adjacents@) == adjacent_tokens_up_to(g, x as int, y as int, i as int),
            decreases parts.len() - i,
        {
            let part = &parts[i];
            proof {
                assert(part@ == grid_tokens(g)[i as int]);
                lemma_adjacent_tokens_step(g, x as int, y as int, i as int);
            }
            let range = part.x_adjacency_range(max_x);
            if (y > 0 && part.y == y - 1) || (part.y > 0 && part.y - 1 == y) || (part.y == y) {
                if x >= range.start && x <= range.end {
                    let pc = part.clone();
                    proof {
                        assert(token_adjacent_to(pc@, x as int, y as int));
                        assert(views_of(adjacents@.push(pc)) =~= views_of(adjacents@).push(pc@));
                    }
                    adjacents.push(pc);
                } else {
                    proof {
                        assert(!token_adjacent_to(part@, x as int, y as int));
                    }
                }
            } else {
                proof {
                    assert(!token_adjacent_to(part@, x as int, y as int));
                }
            }
            i = i + 1;
        }
        proof {
            assert(parts@.len() == grid_tokens(g).len());
        }
        adjacents
    }

    /// Whether the in-bounds cell (`x`, `y`) is a gear: it must hold `'*'`
    /// and have exactly two adjacent part numbers; a cell holding any other
    /// character is never a gear.
    pub fn is_gear(&self, x: usize, y: usize) -> (r: bool)
        requires
            y < self@.len(),
            x < self.spec_cols(),
        ensures
            r == gear_at(self@, x as int, y as int),
            self@[y as int][x as int] != '*' ==> !r,
    {
        proof {
            use_type_invariant(&*self);
        }
        let c = grid_get(&self.data, y, x).unwrap();
        if c != '*' {
            return false;
        }
        let adjacent_parts = self.get_part_numbers_adjacent_to(x, y);
        adjacent_parts.len() == 2
    }

    /// Whether any gear cell lies in the part number's adjacency range.
    #[verifier::loop_isolation(false)]
    pub fn is_adjacent_to_gear(&self, p: &PartNumber) -> (r: bool)
        requires
            p@.y < self@.len(),
            p@.x1 <= p@.x2 < self.spec_cols(),
        ensures
            r == gear_adjacent(self@, p@),
    {
        proof {
            use_type_invariant(&*self);
        }
        let ghost g = self@;
        let (xlo, xhi, ylo, yhi) = self.adjacency_bounds(p);
        let mut yv: usize = ylo;
        while yv <= yhi
            invariant
                ylo <= yv <= yhi + 1,
                forall|yy: int, xx: int|
                    0 <= yy < g.len() && 0 <= xx < g[yy].len() && token_adjacent_to(p@, xx, yy)
                        && yy < yv ==> !gear_at(g, xx, yy),
            decreases yhi + 1 - yv,
        {
            let mut xv: usize = xlo;
            while xv <= xhi
                invariant
                    xlo <= xv <= xhi + 1,
                    ylo <= yv <= yhi,
                    forall|yy: int, xx: int|
                        0 <= yy < g.len() && 0 <= xx < g[yy].len() && token_adjacent_to(p@, xx, yy)
                            && yy < yv ==> !gear_at(g, xx, yy),
                    forall|xx: int|
                        0 <= xx < g[yv as int].len() && token_adjacent_to(p@, xx, yv as int) && xx
                            < xv ==> !gear_at(g, xx, yv as int),
                decreases xhi + 1 - xv,
            {
                if self.is_gear(xv, yv) {
                    proof {
                        assert(gear_at(g, xv as int, yv as int) && token_adjacent_to(
                            p@,
                            xv as int,
                            yv as int,
                        ));
                    }
                    return true;
                }
                xv = xv + 1;
            }
            yv = yv + 1;
        }
        proof {
            assert forall|yy: int, xx: int| #[trigger]
                gear_at(g, xx, yy) && token_adjacent_to(p@, xx, yy) implies false by {
                assert(g[yy].len() == self.spec_cols());
            };
        }
        false
    }

    /// The sum of the values of every part number adjacent to at least one
    /// symbol.
    #[verifier::loop_isolation(false)]
    pub fn sum_of_part_numbers(&self) -> (r: u32)
        requires
            part_number_sum(self@) <= u32::MAX,
        ensures
            r as nat == part_number_sum(self@),
    {
        proof {
            use_type_invariant(&*self);
        }
        let ghost g = self@;
        let parts = self.get_part_numbers();
        proof {
            lemma_grid_tokens_wf(g);
        }
        let mut sum: u32 = 0;
        let mut i: usize = 0;
        while i < parts.len()
            invariant
                0 <= i <= parts.len(),
                sum as nat == part_sum_up_to(g, i as int),
            decreases parts.len() - i,
        {
            let part = &parts[i];
            proof {
                assert(part@ == grid_tokens(g)[i as int]);
                lemma_part_sum_step(g, i as int);
                lemma_part_sum_le(g, i as int + 1);
            }
            if self.is_adjacent_to_symbol(part) {
                proof {
                    let t = part@;
                    assert(t.text == g[t.y as int].subrange(t.x1 as int, t.x2 + 1int));
                    assert forall|k: int| 0 <= k < t.text.len() implies is_digit_char(
                        #[trigger] t.text[k],
                    ) by {
                        assert(t.text[k] == g[t.y as int][t.x1 + k]);
                    };
                }
                let v = part.as_number();
                sum = sum + v;
            }
            i = i + 1;
        }
        proof {
            assert(parts@.len() == grid_tokens(g).len());
        }
        sum
    }

    /// The sum, over every gear cell of the grid, of the product of the two
    /// adjacent part numbers' values.
    #[verifier::loop_isolation(false)]
    pub fn sum_of_gear_ratios(&self) -> (r: u32)
        requires
            gear_ratio_sum(self@, self.spec_cols() as int) <= u32::MAX,
            forall|i: int|
                0 <= i < grid_tokens(self@).len() && symbol_adjacent(
                    self@,
                    #[trigger] grid_tokens(self@)[i],
                ) ==> token_val(grid_tokens(self@)[i].text) <= u32::MAX,
        ensures
            r as nat == gear_ratio_sum(self@, self.spec_cols() as int),
    {
        proof {
            use_type_invariant(&*self);
        }
        let ghost g = self@;
        let rows = grid_column_len(&self.data);
        let cols = grid_row_len(&self.data);
        let mut sum: u32 = 0;
        let mut x: usize = 0;
        while x < cols
            invariant
                0 <= x <= cols,
                sum as nat == gear_sum_up_to(g, x as int),
            decreases cols - x,
        {
            let mut y: usize = 0;
            while y < rows
                invariant
                    0 <= y <= rows,
                    x < cols,
                    sum as nat == gear_sum_up_to(g, x as int) + column_gear_sum(g, x as int, y as int),
                decreases rows - y,
            {
                if self.is_gear(x, y) {
                    let parts = self.get_part_numbers_adjacent_to(x, y);
                    proof {
                        lemma_grid_tokens_wf(g);
                        let n = grid_tokens(g).len() as int;
                        let adj = adjacent_tokens(g, x as int, y as int);
                        assert(parts@[0]@ == adj[0] && parts@[1]@ == adj[1]);
                        assert forall|k: int| 0 <= k < 2 implies {
                            &&& forall|m: int|
                                0 <= m < adj[k].text.len() ==> is_digit_char(
                                    #[trigger] adj[k].text[m],
                                )
                            &&& token_val(adj[k].text) <= u32::MAX
                        } by {
                            lemma_adjacent_tokens_elem(g, x as int, y as int, n, k);
                            let j = choose|j: int|
                                0 <= j < grid_tokens(g).len() && #[trigger] grid_tokens(g)[j]
                                    == adj[k];
                            let t = grid_tokens(g)[j];
                            assert(is_symbol_char(g[y as int][x as int]));
                            assert(symbol_adjacent(g, t));
                            assert(t.text == g[t.y as int].subrange(t.x1 as int, t.x2 + 1int));
                            assert forall|m: int| 0 <= m < t.text.len() implies is_digit_char(
                                #[trigger] t.text[m],
                            ) by {
                                assert(t.text[m] == g[t.y as int][t.x1 + m]);
                            };
                        };
                        lemma_gear_partial_le(g, self.spec_cols() as int, x as int, y as int);
                    }
                    let a = parts[0].as_number();
                    let b = parts[1].as_number();
                    sum = sum + a * b;
                }
                y = y + 1;
            }
            x = x + 1;
        }
        sum
    }

    /// Whether any symbol cell lies in the part number's adjacency range.
    #[verifier::loop_isolation(false)]
    pub fn is_adjacent_to_symbol(&self, p: &PartNumber) -> (r: bool)
        requires
            p@.y < self@.len(),
            p@.x1 <= p@.x2 < self.spec_cols(),
        ensures
            r == symbol_adjacent(self@, p@),
    {
        proof {
            use_type_invariant(&*self);
        }
        let ghost g = self@;
        let (xlo, xhi, ylo, yhi) = self.adjacency_bounds(p);
        let mut yv: usize = ylo;
        while yv <= yhi
            invariant
                ylo <= yv <= yhi + 1,
                forall|yy: int, xx: int|
                    0 <= yy < g.len() && 0 <= xx < g[yy].len() && token_adjacent_to(p@, xx, yy)
                        && yy < yv ==> !is_symbol_char(#[trigger] g[yy][xx]),
            decreases yhi + 1 - yv,
        {
            let mut xv: usize = xlo;
            while xv <= xhi
                invariant
                    xlo <= xv <= xhi + 1,
                    ylo <= yv <= yhi,
                    forall|yy: int, xx: int|
                        0 <= yy < g.len() && 0 <= xx < g[yy].len() && token_adjacent_to(p@, xx, yy)
                            && yy < yv ==> !is_symbol_char(#[trigger] g[yy][xx]),
                    forall|xx: int|
                        0 <= xx < g[yv as int].len() && token_adjacent_to(p@, xx, yv as int) && xx
                            < xv ==> !is_symbol_char(#[trigger] g[yv as int][xx]),
                decreases xhi + 1 - xv,
            {
                if self.is_symbol_at(xv, yv) {
                    proof {
                        assert(is_symbol_char(g[yv as int][xv as int]) && token_adjacent_to(
                            p@,
                            xv as int,
                            yv as int,
                        ));
                    }
                    return true;
                }
                xv = xv + 1;
            }
            yv = yv + 1;
        }
        proof {
            assert forall|yy: int, xx: int|
                0 <= yy < g.len() && 0 <= xx < g[yy].len() && token_adjacent_to(
                    p@,
                    xx,
                    yy,
                ) implies !is_symbol_char(#[trigger] g[yy][xx]) by {
                assert(g[yy].len() == self.spec_cols());
            };
        }
        false
    }
}

} // verus!
