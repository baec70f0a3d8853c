//! Places of tables that are stored row by row.
use vstd::arithmetic::div_mod::{lemma_fundamental_div_mod, lemma_fundamental_div_mod_converse};
use vstd::prelude::*;

verus! {

/// A place in a table of rows: within the table, and found again by division.
pub proof fn lemma_row_place(rows: int, width: int, row: int, column: int)
    requires
        0 <= row < rows,
        0 <= column < width,
    ensures
        0 <= row * width + column < rows * width,
        (row * width + column) / width == row,
        (row * width + column) % width == column,
{
    assert(0 <= row * width && row * width + width <= rows * width) by (nonlinear_arith)
        requires
            0 <= row,
            row + 1 <= rows,
            0 < width,
    ;
    lemma_fundamental_div_mod_converse(row * width + column, width, row, column);
}

/// The row and column of a place of a table.
pub proof fn lemma_place_row(rows: int, width: int, place: int)
    requires
        0 <= place < rows * width,
        0 <= rows,
        0 <= width,
    ensures
        width > 0,
        0 <= place / width < rows,
        0 <= place % width < width,
        place == (place / width) * width + place % width,
{
    assert(width > 0) by (nonlinear_arith)
        requires
            0 <= place < rows * width,
            0 <= width,
            0 <= rows,
    ;
    lemma_fundamental_div_mod(place, width);
    let q = place / width;
    assert(width * q == q * width) by (nonlinear_arith);
    assert(0 <= q && q < rows) by (nonlinear_arith)
        requires
            width > 0,
            0 <= place < rows * width,
            place == q * width + place % width,
            0 <= place % width < width,
    ;
}

} // verus!
