//! The mapping between positions on the play-field and cells of the grid.
//!
//! The play-field is a square of `cell_size * width` units a side with the
//! origin at its centre; `x` grows to the right and `y` grows upward, while
//! rows are counted downward from the top. Positions are whole numbers of
//! units, in whatever unit the host measures its window.
//!
//! Two conventions hold throughout. The field's outer edge is outside: a
//! position is on the field only if it is strictly nearer to the centre
//! than half a side, in both directions. And a cell is drawn around its
//! middle: the position given for a cell is the middle of its square, so
//! that a press on a drawn cell is mapped to that cell.
//!
//! Half a side need not be a whole number of units, so the comparisons and
//! divisions are made on doubled coordinates. A cell's side is a `u32`, so
//! that the side of the largest field fits in 64 bits.

use vstd::prelude::*;
use vstd::arithmetic::div_mod::{lemma_fundamental_div_mod, lemma_fundamental_div_mod_converse};
use crate::error::GridError;
use crate::grid::width_fits;
use crate::rule::{cell_index, in_grid, lemma_cell_index_splits, lemma_index_splits};

verus! {

/// A point of the window, in units, measured from the window's centre.
#[derive(Clone, Copy, Debug, PartialEq, Eq, Structural)]
pub struct Position {
    /// Units to the right of the centre.
    pub x: i64,
    /// Units above the centre.
    pub y: i64,
}

/// The side of the play-field, in units.
pub open spec fn field_side(cell_size: int, width: int) -> int {
    cell_size * width
}

/// Whether a coordinate is strictly between the two edges of the field
/// that bound it: its distance from the centre is less than half a side.
pub open spec fn within(at: int, cell_size: int, width: int) -> bool {
    -field_side(cell_size, width) < 2 * at < field_side(cell_size, width)
}

/// How many whole cells lie between the field's left or top edge and a
/// point `from_centre` units to the right of, or below, the centre.
pub open spec fn cells_before(from_centre: int, cell_size: int, width: int) -> int {
    (2 * from_centre + field_side(cell_size, width)) / (2 * cell_size)
}

/// The cell of the field that holds the position `(x, y)`, if it lies
/// strictly inside the field's outer edges. A cell holds its left and top
/// edge.
pub open spec fn index_at(x: int, y: int, cell_size: int, width: int) -> Option<int> {
    if within(x, cell_size, width) && within(y, cell_size, width) {
        Some(
            cell_index(
                cells_before(-y, cell_size, width),
                cells_before(x, cell_size, width),
                width,
            ),
        )
    } else {
        None
    }
}

/// Twice the distance from the field's centre to the middle of the
/// `nth` column, to the right; and to the middle of the `nth` row,
/// downward.
pub open spec fn twice_middle(nth: int, cell_size: int, width: int) -> int {
    (2 * nth + 1) * cell_size - field_side(cell_size, width)
}

/// The position in the middle of the cell at `index`. Where the middle
/// falls half a unit between positions, the position up and to the left of
/// it.
pub open spec fn center_of(index: int, cell_size: int, width: int) -> (int, int) {
    (
        twice_middle(index % width, cell_size, width) / 2,
        -(twice_middle(index / width, cell_size, width) / 2),
    )
}

/// Whether the middle of every cell is a position: whether twice its
/// distance from the centre is an even number of units.
pub open spec fn middles_are_positions(cell_size: int, width: int) -> bool {
    (cell_size * (width - 1)) % 2 == 0
}

/// A width whose square fits a `usize` is below two to the thirty-second.
proof fn lemma_width_bound(width: int)
    requires
        0 <= width,
        width * width <= usize::MAX,
    ensures
        width < 0x1_0000_0000,
{
    assert(width < 0x1_0000_0000) by (nonlinear_arith)
        requires
            0 <= width,
            width * width <= 0xffff_ffff_ffff_ffff,
    ;
}

/// A point strictly inside the field has a column, or a row, on the field.
proof fn lemma_cells_before(from_centre: int, cell_size: int, width: int)
    requires
        within(from_centre, cell_size, width),
        cell_size >= 0,
        width >= 0,
    ensures
        cell_size > 0,
        width > 0,
        0 <= cells_before(from_centre, cell_size, width) < width,
{
    let side = field_side(cell_size, width);
    assert(cell_size > 0 && width > 0) by (nonlinear_arith)
        requires
            cell_size >= 0,
            width >= 0,
            cell_size * width > 0,
    ;
    let over = 2 * from_centre + side;
    assert(0 <= over / (2 * cell_size) < width) by (nonlinear_arith)
        requires
            0 < over < 2 * side,
            side == cell_size * width,
            cell_size > 0,
    ;
}

/// A position that is mapped to a cell is mapped to a cell of the field.
pub proof fn lemma_index_at_is_cell(x: int, y: int, cell_size: int, width: int)
    requires
        cell_size >= 0,
        width >= 0,
    ensures
        index_at(x, y, cell_size, width) matches Some(index) ==> 0 <= index < width * width,
{
    if index_at(x, y, cell_size, width) is Some {
        lemma_cells_before(x, cell_size, width);
        lemma_cells_before(-y, cell_size, width);
        lemma_cell_index_splits(
            cells_before(-y, cell_size, width),
            cells_before(x, cell_size, width),
            width,
        );
    }
}

/// Whether the `nth` column holds a point `from_centre` units to the right
/// of the centre (or the `nth` row one as far below it): the point is at
/// or past the cell's near edge and before its far edge.
pub open spec fn holds(nth: int, from_centre: int, cell_size: int, width: int) -> bool {
    2 * nth * cell_size <= 2 * from_centre + field_side(cell_size, width) < 2 * (nth + 1)
        * cell_size
}

/// The column counted for a point is the one column that holds it.
pub proof fn lemma_held_by_one(nth: int, from_centre: int, cell_size: int, width: int)
    requires
        cell_size > 0,
    ensures
        holds(nth, from_centre, cell_size, width) <==> cells_before(from_centre, cell_size, width)
            == nth,
{
    let over = 2 * from_centre + field_side(cell_size, width);
    let step = 2 * cell_size;
    assert(2 * nth * cell_size == nth * step && 2 * (nth + 1) * cell_size == nth * step + step)
        by (nonlinear_arith)
        requires
            step == 2 * cell_size,
    ;
    if holds(nth, from_centre, cell_size, width) {
        lemma_fundamental_div_mod_converse(over, step, nth, over - nth * step);
    }
    if over / step == nth {
        lemma_fundamental_div_mod(over, step);
        assert(step * nth == nth * step) by (nonlinear_arith);
    }
}

/// A position is mapped to a cell exactly when it lies strictly inside
/// the field's outer edges and the cell's square holds it.
pub proof fn lemma_index_at(x: int, y: int, cell_size: int, width: int, row: int, col: int)
    requires
        cell_size > 0,
        width > 0,
        in_grid(row, col, width),
    ensures
        index_at(x, y, cell_size, width) == Some(cell_index(row, col, width)) <==> {
            &&& within(x, cell_size, width)
            &&& within(y, cell_size, width)
            &&& holds(col, x, cell_size, width)
            &&& holds(row, -y, cell_size, width)
        },
{
    lemma_held_by_one(col, x, cell_size, width);
    lemma_held_by_one(row, -y, cell_size, width);
    lemma_cell_index_splits(row, col, width);
    if index_at(x, y, cell_size, width) == Some(cell_index(row, col, width)) {
        lemma_cells_before(x, cell_size, width);
        lemma_cells_before(-y, cell_size, width);
        lemma_cell_index_splits(
            cells_before(-y, cell_size, width),
            cells_before(x, cell_size, width),
            width,
        );
    }
}

/// The side of the play-field, in units: what a cell measures times the
/// cells in a row.
pub fn total_size(cell_size: u32, width: usize) -> (side: u64)
    requires
        width_fits(width as nat),
    ensures
        side == field_side(cell_size as int, width as int),
{
    proof {
        lemma_width_bound(width as int);
        assert(0 <= cell_size * width < 0x1_0000_0000_0000_0000) by (nonlinear_arith)
            requires
                0 <= cell_size < 0x1_0000_0000,
                0 <= width < 0x1_0000_0000,
        ;
    }
    (cell_size as u64) * (width as u64)
}

/// The cell under `position` on a field of `width` by `width` cells of
/// `cell_size` units each, centred on the origin. A position on or beyond
/// the field's outer edge is under no cell.
pub fn position_to_index(position: Position, cell_size: u32, width: usize) -> (found: Option<usize>)
    requires
        width_fits(width as nat),
    ensures
        found is Some <==> within(position.x as int, cell_size as int, width as int) && within(
            position.y as int,
            cell_size as int,
            width as int,
        ),
        found matches Some(index) ==> index < width * width,
        match found {
            Some(index) => index_at(
                position.x as int,
                position.y as int,
                cell_size as int,
                width as int,
            ) == Some(index as int),
            None => index_at(position.x as int, position.y as int, cell_size as int, width as int)
                is None,
        },
{
    proof {
        lemma_width_bound(width as int);
        assert(0 <= cell_size * width < 0x1_0000_0000_0000_0000) by (nonlinear_arith)
            requires
                0 <= cell_size < 0x1_0000_0000,
                0 <= width < 0x1_0000_0000,
        ;
    }
    let side: i128 = (cell_size as i128) * (width as i128);
    let twice_x: i128 = 2 * (position.x as i128);
    let twice_y: i128 = 2 * (position.y as i128);
    if twice_x >= side || twice_x <= -side || twice_y >= side || twice_y <= -side {
        return None;
    }
    proof {
        lemma_cells_before(position.x as int, cell_size as int, width as int);
        lemma_cells_before(-(position.y as int), cell_size as int, width as int);
    }
    let col: usize = ((twice_x + side) / (2 * (cell_size as i128))) as usize;
    let row: usize = ((side - twice_y) / (2 * (cell_size as i128))) as usize;
    proof {
        lemma_cell_index_splits(row as int, col as int, width as int);
    }
    Some(row * width + col)
}

/// Where the middles are positions, the position given for a column is
/// its middle exactly; where they are not, it is half a unit to the left.
proof fn lemma_middle_parity(nth: int, cell_size: int, width: int)
    ensures
        twice_middle(nth, cell_size, width) % 2 == (cell_size * (width - 1)) % 2,
{
    assert(twice_middle(nth, cell_size, width) == 2 * (nth * cell_size) - cell_size * (width - 1))
        by (nonlinear_arith)
        requires
            twice_middle(nth, cell_size, width) == (2 * nth + 1) * cell_size - cell_size * width,
    ;
}

/// The position given for a column lies in that column, and strictly
/// inside the field if the cells are at least two units wide or their
/// middles are positions.
proof fn lemma_middle_held(nth: int, cell_size: int, width: int)
    requires
        0 <= nth < width,
        cell_size >= 1,
        cell_size >= 2 || middles_are_positions(cell_size, width),
    ensures
        holds(nth, twice_middle(nth, cell_size, width) / 2, cell_size, width),
        within(twice_middle(nth, cell_size, width) / 2, cell_size, width),
{
    let side = field_side(cell_size, width);
    lemma_middle_parity(nth, cell_size, width);
    assert(2 * nth * cell_size + cell_size == (2 * nth + 1) * cell_size && 2 * (nth + 1)
        * cell_size == (2 * nth + 1) * cell_size + cell_size) by (nonlinear_arith);
    assert(0 <= 2 * nth * cell_size <= 2 * side - 2 * cell_size) by (nonlinear_arith)
        requires
            0 <= nth < width,
            cell_size >= 1,
            side == cell_size * width,
    ;
}

/// Where the middle of every cell is a position, the position given for a
/// cell is its middle exactly.
pub proof fn lemma_center_is_exact(index: int, cell_size: int, width: int)
    requires
        middles_are_positions(cell_size, width),
    ensures
        2 * center_of(index, cell_size, width).0 == twice_middle(index % width, cell_size, width),
        2 * center_of(index, cell_size, width).1 == -twice_middle(
            index / width,
            cell_size,
            width,
        ),
{
    lemma_middle_parity(index % width, cell_size, width);
    lemma_middle_parity(index / width, cell_size, width);
}

/// The position given for a cell is mapped back to that cell: for every
/// cell of every field on which the middles are positions, and of every
/// field whose cells are at least two units wide.
pub proof fn lemma_center_round_trip(index: int, cell_size: int, width: int)
    requires
        width > 0,
        0 <= index < width * width,
        cell_size >= 1,
        cell_size >= 2 || middles_are_positions(cell_size, width),
    ensures
        index_at(
            center_of(index, cell_size, width).0,
            center_of(index, cell_size, width).1,
            cell_size,
            width,
        ) == Some(index),
{
    let row = index / width;
    let col = index % width;
    lemma_index_splits(index, width);
    lemma_middle_held(col, cell_size, width);
    lemma_middle_held(row, cell_size, width);
    let (x, y) = center_of(index, cell_size, width);
    lemma_index_at(x, y, cell_size, width, row, col);
}

/// Half of twice the distance from the centre to the middle of the `nth`
/// column, rounded down.
fn middle(nth: usize, cell_size: u32, width: usize) -> (half: i64)
    requires
        nth < width < 0x1_0000_0000,
    ensures
        half == twice_middle(nth as int, cell_size as int, width as int) / 2,
        -i64::MAX <= half <= i64::MAX,
{
    proof {
        assert(0 <= (2 * nth + 1) * cell_size < 0x2_0000_0000_0000_0000 && 0 <= cell_size * width
            < 0x1_0000_0000_0000_0000 && -0x1_0000_0000_0000_0000 + 0x2_0000_0000 <= (2 * nth + 1)
            * cell_size - cell_size * width <= 0x1_0000_0000_0000_0000 - 0x2_0000_0000)
            by (nonlinear_arith)
            requires
                0 <= nth < width < 0x1_0000_0000,
                0 <= cell_size < 0x1_0000_0000,
        ;
    }
    let out: i128 = (2 * (nth as i128) + 1) * (cell_size as i128);
    let back: i128 = (cell_size as i128) * (width as i128);
    let twice: i128 = out - back;
    let half: i128 = if twice >= 0 {
        twice / 2
    } else {
        -((1 - twice) / 2)
    };
    half as i64
}

/// The position in the middle of the cell at `index`, for drawing it where
/// a press on it is mapped to it; where the middle falls half a unit
/// between positions, the position up and to the left of it. An index that
/// is no cell of the field is refused.
pub fn cell_center(index: usize, cell_size: u32, width: usize) -> (found: Result<
    Position,
    GridError,
>)
    requires
        width_fits(width as nat),
    ensures
        index < width * width <==> found is Ok,
        found matches Err(e) ==> e == GridError::OutOfRange,
        found matches Ok(position) ==> (position.x as int, position.y as int) == center_of(
            index as int,
            cell_size as int,
            width as int,
        ),
{
    if width == 0 {
        assert(width * width == 0) by (nonlinear_arith)
            requires
                width == 0,
        ;
        return Err(GridError::OutOfRange);
    }
    if index >= width * width {
        return Err(GridError::OutOfRange);
    }
    proof {
        lemma_width_bound(width as int);
        lemma_index_splits(index as int, width as int);
    }
    let x: i64 = middle(index % width, cell_size, width);
    let below: i64 = middle(index / width, cell_size, width);
    Ok(Position { x, y: -below })
}

} // verus!
