//! What the rule does to two well-known shapes: the block, which stays as
//! it is, and the blinker, which turns and turns back.

use vstd::prelude::*;
use crate::rule::{
    cell_index, in_grid, lemma_all_positions, lemma_index_splits, live_neighbors, next_cells,
};

verus! {

/// The cells after `count` further generations.
pub open spec fn generations(cells: Seq<bool>, width: int, count: nat) -> Seq<bool>
    decreases count,
{
    if count == 0 {
        cells
    } else {
        next_cells(generations(cells, width, (count - 1) as nat), width)
    }
}

/// Whether the live cells are exactly the two-by-two block whose top-left
/// cell is at `(top, left)`, all of it on the field.
pub open spec fn is_block(cells: Seq<bool>, width: int, top: int, left: int) -> bool {
    &&& cells.len() == width * width
    &&& in_grid(top, left, width)
    &&& in_grid(top + 1, left + 1, width)
    &&& forall|row: int, col: int|
        in_grid(row, col, width) ==> (cells[#[trigger] cell_index(row, col, width)] <==> top <= row
            <= top + 1 && left <= col <= left + 1)
}

/// Whether the live cells are exactly the three cells of row `row` around
/// column `col`, all of them on the field.
pub open spec fn is_row_blinker(cells: Seq<bool>, width: int, row: int, col: int) -> bool {
    &&& cells.len() == width * width
    &&& in_grid(row, col - 1, width)
    &&& in_grid(row, col + 1, width)
    &&& forall|r: int, c: int|
        in_grid(r, c, width) ==> (cells[#[trigger] cell_index(r, c, width)] <==> r == row && col
            - 1 <= c <= col + 1)
}

/// Whether the live cells are exactly the three cells of column `col`
/// around row `row`, all of them on the field.
pub open spec fn is_column_blinker(cells: Seq<bool>, width: int, row: int, col: int) -> bool {
    &&& cells.len() == width * width
    &&& in_grid(row - 1, col, width)
    &&& in_grid(row + 1, col, width)
    &&& forall|r: int, c: int|
        in_grid(r, c, width) ==> (cells[#[trigger] cell_index(r, c, width)] <==> c == col && row
            - 1 <= r <= row + 1)
}

/// A block is a still life: the next generation is the same, wherever on
/// the field the block lies.
pub proof fn lemma_block_is_still(cells: Seq<bool>, width: int, top: int, left: int)
    requires
        is_block(cells, width, top, left),
    ensures
        next_cells(cells, width) == cells,
{
    let next = next_cells(cells, width);
    lemma_all_positions(width);
    assert forall|i: int| 0 <= i < cells.len() implies next[i] == cells[i] by {
        let row = i / width;
        let col = i % width;
        lemma_index_splits(i, width);
        let around = live_neighbors(cells, width, row, col);
        if top <= row <= top + 1 && left <= col <= left + 1 {
            assert(around == 3);
        } else {
            assert(around <= 2);
        }
    }
    assert(next =~= cells);
}

/// A block stays as it is through every later generation.
pub proof fn lemma_block_stays(cells: Seq<bool>, width: int, top: int, left: int, count: nat)
    requires
        is_block(cells, width, top, left),
    ensures
        generations(cells, width, count) == cells,
    decreases count,
{
    if count > 0 {
        lemma_block_stays(cells, width, top, left, (count - 1) as nat);
        lemma_block_is_still(cells, width, top, left);
    }
}

/// A blinker lying in a row, with room above and below, stands in a column
/// in the next generation.
pub proof fn lemma_row_blinker_turns(cells: Seq<bool>, width: int, row: int, col: int)
    requires
        is_row_blinker(cells, width, row, col),
        in_grid(row - 1, col, width),
        in_grid(row + 1, col, width),
    ensures
        is_column_blinker(next_cells(cells, width), width, row, col),
{
    let next = next_cells(cells, width);
    lemma_all_positions(width);
    assert forall|r: int, c: int| in_grid(r, c, width) implies (next[#[trigger] cell_index(
        r,
        c,
        width,
    )] <==> c == col && row - 1 <= r <= row + 1) by {
        let around = live_neighbors(cells, width, r, c);
        if c == col && row - 1 <= r <= row + 1 {
            assert(around == if r == row { 2int } else { 3int });
        } else if r == row && col - 1 <= c <= col + 1 {
            assert(around == 1);
        } else {
            assert(around <= 2);
        }
    }
}

/// A blinker standing in a column, with room to its left and right, lies
/// in a row in the next generation.
pub proof fn lemma_column_blinker_turns(cells: Seq<bool>, width: int, row: int, col: int)
    requires
        is_column_blinker(cells, width, row, col),
        in_grid(row, col - 1, width),
        in_grid(row, col + 1, width),
    ensures
        is_row_blinker(next_cells(cells, width), width, row, col),
{
    let next = next_cells(cells, width);
    lemma_all_positions(width);
    assert forall|r: int, c: int| in_grid(r, c, width) implies (next[#[trigger] cell_index(
        r,
        c,
        width,
    )] <==> r == row && col - 1 <= c <= col + 1) by {
        let around = live_neighbors(cells, width, r, c);
        if r == row && col - 1 <= c <= col + 1 {
            assert(around == if c == col { 2int } else { 3int });
        } else if c == col && row - 1 <= r <= row + 1 {
            assert(around == 1);
        } else {
            assert(around <= 2);
        }
    }
}

/// Two grids of one size with the same cell alive at every position are
/// the same grid.
proof fn lemma_same_picture(first: Seq<bool>, second: Seq<bool>, width: int)
    requires
        width > 0,
        first.len() == width * width,
        second.len() == width * width,
        forall|r: int, c: int|
            in_grid(r, c, width) ==> first[#[trigger] cell_index(r, c, width)] == second[cell_index(
                r,
                c,
                width,
            )],
    ensures
        first == second,
{
    assert forall|i: int| 0 <= i < first.len() implies first[i] == second[i] by {
        lemma_index_splits(i, width);
        assert(first[cell_index(i / width, i % width, width)] == second[cell_index(
            i / width,
            i % width,
            width,
        )]);
    }
    assert(first =~= second);
}

/// A blinker away from the field's edge has period two: one generation
/// on it is another grid, two generations on it is itself again.
pub proof fn lemma_blinker_period_two(cells: Seq<bool>, width: int, row: int, col: int)
    requires
        in_grid(row - 1, col - 1, width),
        in_grid(row + 1, col + 1, width),
        is_row_blinker(cells, width, row, col) || is_column_blinker(cells, width, row, col),
    ensures
        generations(cells, width, 1) != cells,
        generations(cells, width, 2) == cells,
{
    let once = next_cells(cells, width);
    let twice = next_cells(once, width);
    assert(generations(cells, width, 0) == cells);
    assert(generations(cells, width, 1) == once);
    assert(generations(cells, width, 2) == twice) by {
        reveal_with_fuel(generations, 3);
    }
    lemma_all_positions(width);
    if is_row_blinker(cells, width, row, col) {
        lemma_row_blinker_turns(cells, width, row, col);
        lemma_column_blinker_turns(once, width, row, col);
        assert(cells[cell_index(row, col - 1, width)] != once[cell_index(row, col - 1, width)]);
    } else {
        lemma_column_blinker_turns(cells, width, row, col);
        lemma_row_blinker_turns(once, width, row, col);
        assert(cells[cell_index(row - 1, col, width)] != once[cell_index(row - 1, col, width)]);
    }
    lemma_same_picture(twice, cells, width);
}

/// A blinker away from the field's edge oscillates for ever: after an
/// even number of generations it is itself, after an odd number it is
/// turned.
pub proof fn lemma_blinker_oscillates(
    cells: Seq<bool>,
    width: int,
    row: int,
    col: int,
    count: nat,
)
    requires
        in_grid(row - 1, col - 1, width),
        in_grid(row + 1, col + 1, width),
        is_row_blinker(cells, width, row, col) || is_column_blinker(cells, width, row, col),
    ensures
        generations(cells, width, count) == if count % 2 == 0 {
            cells
        } else {
            next_cells(cells, width)
        },
    decreases count,
{
    if count > 0 {
        lemma_blinker_oscillates(cells, width, row, col, (count - 1) as nat);
        if count % 2 == 0 {
            lemma_blinker_period_two(cells, width, row, col);
            assert(generations(cells, width, 2) == next_cells(next_cells(cells, width), width)) by {
                reveal_with_fuel(generations, 3);
            }
        }
    }
}

} // verus!
