//! The trusted boundary around `array2d`: the rectangular character matrix
//! that backs a schematic.
//!
//! The contents of an `array2d::Array2D<char>` are named by the
//! uninterpreted functions [`grid_view`] (its rows) and [`grid_cols`] (its
//! column count); the wrappers below state, over those names, what the
//! `array2d` calls used by this crate do.

use vstd::prelude::*;

verus! {

#[verifier::external_type_specification]
#[verifier::external_body]
#[verifier::reject_recursive_types(T)]
pub struct ExArray2D<T>(array2d::Array2D<T>);

#[verifier::external_type_specification]
#[verifier::external_body]
pub struct ExArray2DError(array2d::Error);

/// The rows held by a character matrix, top to bottom, each left to right.
pub uninterp spec fn grid_view(a: array2d::Array2D<char>) -> Seq<Seq<char>>;

/// The column count the matrix was built with.
pub uninterp spec fn grid_cols(a: array2d::Array2D<char>) -> nat;

/// How an operation on the grid accessor can fail.
#[derive(Clone, Copy, Debug, PartialEq, Eq, Structural)]
pub enum GridError {
    /// A queried coordinate lies outside the matrix.
    OutOfBounds,
    /// The rows offered at construction do not all have the same length.
    DimensionMismatch,
}

/// All rows have the length of the first row.
pub open spec fn rows_rect(rows: Seq<Seq<char>>) -> bool {
    forall|i: int| 0 <= i < rows.len() ==> (#[trigger] rows[i]).len() == rows[0].len()
}

/// Relies on `array2d::Array2D::from_rows`: `Ok` exactly when every row has
/// the first row's length; the matrix then holds those rows in order and its
/// column count is the first row's length (0 when there are no rows).
#[verifier::external_body]
pub(crate) fn arr_from_rows(rows: &Vec<Vec<char>>) -> (r: Result<
    array2d::Array2D<char>,
    array2d::Error,
>)
    ensures
        r.is_ok() <==> rows_rect(rows.deep_view()),
        r matches Ok(a) ==> grid_view(a) == rows.deep_view() && grid_cols(a) == (
        if rows.deep_view().len() == 0 {
            0nat
        } else {
            rows.deep_view()[0].len()
        }),
{
    array2d::Array2D::from_rows(rows.as_slice())
}

/// Relies on `array2d::Array2D::get`: `Some` of the element at (`row`,
/// `col`) when both indices are in bounds, `None` otherwise.
#[verifier::external_body]
pub(crate) fn grid_get(a: &array2d::Array2D<char>, row: usize, col: usize) -> (r: Option<char>)
    ensures
        r matches Some(c) ==> row < grid_view(*a).len() && col < grid_cols(*a) && c == grid_view(
            *a,
        )[row as int][col as int],
        r is None ==> row >= grid_view(*a).len() || col >= grid_cols(*a),
{
    a.get(row, col).copied()
}

/// Relies on `array2d::Array2D::row_len`: the number of columns.
#[verifier::external_body]
pub(crate) fn grid_row_len(a: &array2d::Array2D<char>) -> (r: usize)
    ensures
        r == grid_cols(*a),
{
    a.row_len()
}

/// Relies on `array2d::Array2D::column_len`: the number of rows.
#[verifier::external_body]
pub(crate) fn grid_column_len(a: &array2d::Array2D<char>) -> (r: usize)
    ensures
        r == grid_view(*a).len(),
{
    a.column_len()
}

} // verus!
