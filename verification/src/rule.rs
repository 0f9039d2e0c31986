//! The neighbour rule: which cells surround a cell on a bounded field, and
//! how one generation follows from the one before.

use vstd::prelude::*;
use vstd::arithmetic::div_mod::{lemma_fundamental_div_mod, lemma_fundamental_div_mod_converse};
use crate::error::GridError;
use crate::grid::{width_fits, Grid};

verus! {

/// Whether row `row`, column `col` lies on a field of `width` by `width`.
pub open spec fn in_grid(row: int, col: int, width: int) -> bool {
    0 <= row < width && 0 <= col < width
}

/// The row-major index of the cell in row `row`, column `col`.
pub open spec fn cell_index(row: int, col: int, width: int) -> int {
    row * width + col
}

/// Whether `other` is a cell of the field that touches the cell `index`
/// along an edge or at a corner. The field does not wrap around.
pub open spec fn is_neighbor(index: int, other: int, width: int) -> bool {
    &&& 0 <= other < width * width
    &&& other != index
    &&& -1 <= other / width - index / width <= 1
    &&& -1 <= other % width - index % width <= 1
}

/// The cell in row `row`, column `col` if there is one, as a sequence of
/// one index or of none.
pub open spec fn slot(row: int, col: int, width: int) -> Seq<int> {
    if in_grid(row, col, width) {
        seq![cell_index(row, col, width)]
    } else {
        Seq::empty()
    }
}

/// The cells around `index` that exist, from the top-left one to the
/// bottom-right one, row by row.
pub open spec fn neighbor_seq(index: int, width: int) -> Seq<int> {
    let row = index / width;
    let col = index % width;
    slot(row - 1, col - 1, width) + slot(row - 1, col, width) + slot(row - 1, col + 1, width)
        + slot(row, col - 1, width) + slot(row, col + 1, width) + slot(row + 1, col - 1, width)
        + slot(row + 1, col, width) + slot(row + 1, col + 1, width)
}

/// How many of the positions `at - 1`, `at`, `at + 1` lie in `0..width`,
/// for `at` itself in that range.
pub open spec fn span(at: int, width: int) -> int {
    1 + (if at > 0 { 1int } else { 0int }) + (if at + 1 < width { 1int } else { 0int })
}

/// The number of cells around `index`: the positions in and beside its
/// row, times those in and beside its column, less the cell itself.
pub open spec fn neighbor_count(index: int, width: int) -> int {
    span(index / width, width) * span(index % width, width) - 1
}

/// One if the position is a live cell of the field, zero if it is a dead
/// cell or off the field.
pub open spec fn live(cells: Seq<bool>, width: int, row: int, col: int) -> int {
    if in_grid(row, col, width) && cells[cell_index(row, col, width)] {
        1
    } else {
        0
    }
}

/// The number of live cells among the eight positions around a position.
pub open spec fn live_neighbors(cells: Seq<bool>, width: int, row: int, col: int) -> int {
    live(cells, width, row - 1, col - 1) + live(cells, width, row - 1, col) + live(
        cells,
        width,
        row - 1,
        col + 1,
    ) + live(cells, width, row, col - 1) + live(cells, width, row, col + 1) + live(
        cells,
        width,
        row + 1,
        col - 1,
    ) + live(cells, width, row + 1, col) + live(cells, width, row + 1, col + 1)
}

/// The rule of Life: with three live cells around it a cell is alive in
/// the next generation, with two it stays as it is, with any other number
/// it is dead.
pub open spec fn alive_next(alive: bool, around: int) -> bool {
    around == 3 || (around == 2 && alive)
}

/// The generation that follows `cells`: the rule applied to every cell at
/// once, each counted against the generation given.
pub open spec fn next_cells(cells: Seq<bool>, width: int) -> Seq<bool> {
    Seq::new(
        cells.len(),
        |i: int| alive_next(cells[i], live_neighbors(cells, width, i / width, i % width)),
    )
}

/// How many of the listed cells are alive.
pub open spec fn count_live(cells: Seq<bool>, list: Seq<int>) -> int
    decreases list.len(),
{
    if list.len() == 0 {
        0
    } else {
        count_live(cells, list.drop_last()) + if cells[list.last()] {
            1int
        } else {
            0int
        }
    }
}

/// The indices as mathematical integers.
pub open spec fn as_ints(list: Seq<usize>) -> Seq<int> {
    list.map_values(|j: usize| j as int)
}

/// An index below `width * width` splits into a row and a column on the
/// field, and is put together again from them.
pub proof fn lemma_index_splits(index: int, width: int)
    requires
        width > 0,
        0 <= index < width * width,
    ensures
        in_grid(index / width, index % width, width),
        cell_index(index / width, index % width, width) == index,
{
    lemma_fundamental_div_mod(index, width);
    let row = index / width;
    assert(width * row == row * width) by (nonlinear_arith);
    assert(0 <= row < width) by (nonlinear_arith)
        requires
            0 <= index < width * width,
            index == row * width + index % width,
            0 <= index % width < width,
            width > 0,
    ;
}

/// The index of a position on the field is below `width * width`, and
/// splits back into that row and that column.
pub proof fn lemma_cell_index_splits(row: int, col: int, width: int)
    requires
        in_grid(row, col, width),
    ensures
        0 <= cell_index(row, col, width) < width * width,
        cell_index(row, col, width) / width == row,
        cell_index(row, col, width) % width == col,
{
    lemma_fundamental_div_mod_converse(row * width + col, width, row, col);
    assert(0 <= row * width + col < width * width) by (nonlinear_arith)
        requires
            0 <= row < width,
            0 <= col < width,
    ;
}

/// Every position on the field has an index below `width * width`, from
/// which its row and its column are found again.
pub proof fn lemma_all_positions(width: int)
    ensures
        forall|row: int, col: int|
            in_grid(row, col, width) ==> {
                &&& 0 <= #[trigger] cell_index(row, col, width) < width * width
                &&& cell_index(row, col, width) / width == row
                &&& cell_index(row, col, width) % width == col
            },
{
    assert forall|row: int, col: int| in_grid(row, col, width) implies {
        &&& 0 <= #[trigger] cell_index(row, col, width) < width * width
        &&& cell_index(row, col, width) / width == row
        &&& cell_index(row, col, width) % width == col
    } by {
        lemma_cell_index_splits(row, col, width);
    }
}

/// One step up or down the field changes the index by `width`.
pub proof fn lemma_row_step(row: int, col: int, width: int)
    ensures
        cell_index(row - 1, col, width) == cell_index(row, col, width) - width,
        cell_index(row + 1, col, width) == cell_index(row, col, width) + width,
{
    assert((row - 1) * width == row * width - width) by (nonlinear_arith);
    assert((row + 1) * width == row * width + width) by (nonlinear_arith);
}

/// The indices of the eight positions around a cell, by its own index.
proof fn lemma_surroundings(index: int, width: int)
    requires
        width > 0,
        0 <= index < width * width,
    ensures
        ({
            let row = index / width;
            let col = index % width;
            &&& 0 <= row < width
            &&& 0 <= col < width
            &&& cell_index(row - 1, col - 1, width) == index - width - 1
            &&& cell_index(row - 1, col, width) == index - width
            &&& cell_index(row - 1, col + 1, width) == index - width + 1
            &&& cell_index(row, col - 1, width) == index - 1
            &&& cell_index(row, col + 1, width) == index + 1
            &&& cell_index(row + 1, col - 1, width) == index + width - 1
            &&& cell_index(row + 1, col, width) == index + width
            &&& cell_index(row + 1, col + 1, width) == index + width + 1
            &&& row > 0 ==> index - width >= col
            &&& row + 1 < width ==> index + width + (width - col) <= width * width
        }),
{
    let row = index / width;
    let col = index % width;
    lemma_index_splits(index, width);
    lemma_row_step(row, col - 1, width);
    lemma_row_step(row, col, width);
    lemma_row_step(row, col + 1, width);
    if row > 0 {
        lemma_cell_index_splits(row - 1, 0, width);
        lemma_row_step(row, 0, width);
    }
    if row + 1 < width {
        lemma_cell_index_splits(row + 1, width - 1, width);
        lemma_row_step(row, width - 1, width);
    }
}

/// Whether the sequence rises strictly and stays below `bound`.
spec fn rises_below(list: Seq<int>, bound: int) -> bool {
    &&& forall|a: int, b: int| 0 <= a < b < list.len() ==> list[a] < list[b]
    &&& forall|k: int| 0 <= k < list.len() ==> list[k] < bound
}

/// Appending a slot keeps a sequence rising if the slot's cell, where there
/// is one, is at or above the bound that the sequence stayed below.
proof fn lemma_append_slot(list: Seq<int>, bound: int, row: int, col: int, width: int)
    requires
        rises_below(list, bound),
        in_grid(row, col, width) ==> bound <= cell_index(row, col, width),
    ensures
        rises_below(
            list + slot(row, col, width),
            if in_grid(row, col, width) {
                cell_index(row, col, width) + 1
            } else {
                bound
            },
        ),
        forall|x: int|
            #![trigger (list + slot(row, col, width)).contains(x)]
            (list + slot(row, col, width)).contains(x) <==> list.contains(x) || (in_grid(
                row,
                col,
                width,
            ) && x == cell_index(row, col, width)),
{
    let longer = list + slot(row, col, width);
    assert forall|x: int| longer.contains(x) implies list.contains(x) || (in_grid(row, col, width)
        && x == cell_index(row, col, width)) by {
        let k = choose|k: int| 0 <= k < longer.len() && longer[k] == x;
        if k < list.len() {
            assert(list[k] == x);
        }
    }
    assert forall|x: int|
        list.contains(x) || (in_grid(row, col, width) && x == cell_index(
            row,
            col,
            width,
        )) implies longer.contains(x) by {
        if list.contains(x) {
            let k = choose|k: int| 0 <= k < list.len() && list[k] == x;
            assert(longer[k] == x);
        } else {
            assert(longer[list.len() as int] == x);
        }
    }
}

/// Whether `x` is the index of the position `(row, col)` and that position
/// lies on the field.
spec fn fills(x: int, row: int, col: int, width: int) -> bool {
    in_grid(row, col, width) && x == cell_index(row, col, width)
}

/// Whether `x` is the index of one of the eight positions around
/// `(row, col)` that lie on the field.
spec fn surrounds(x: int, row: int, col: int, width: int) -> bool {
    ||| fills(x, row - 1, col - 1, width)
    ||| fills(x, row - 1, col, width)
    ||| fills(x, row - 1, col + 1, width)
    ||| fills(x, row, col - 1, width)
    ||| fills(x, row, col + 1, width)
    ||| fills(x, row + 1, col - 1, width)
    ||| fills(x, row + 1, col, width)
    ||| fills(x, row + 1, col + 1, width)
}

/// The cells around a cell are the indices of the surrounding positions
/// on the field, in strictly rising order.
proof fn lemma_neighbor_seq_holds(index: int, width: int)
    requires
        width > 0,
        0 <= index < width * width,
    ensures
        forall|x: int|
            neighbor_seq(index, width).contains(x) <==> surrounds(
                x,
                index / width,
                index % width,
                width,
            ),
        forall|a: int, b: int|
            0 <= a < b < neighbor_seq(index, width).len() ==> neighbor_seq(index, width)[a]
                < neighbor_seq(index, width)[b],
{
    let row = index / width;
    let col = index % width;
    lemma_surroundings(index, width);
    let s0 = Seq::<int>::empty();
    let b0 = index - width - 1;
    let s1 = s0 + slot(row - 1, col - 1, width);
    let b1 = if in_grid(row - 1, col - 1, width) { index - width } else { b0 };
    let s2 = s1 + slot(row - 1, col, width);
    let b2 = if in_grid(row - 1, col, width) { index - width + 1 } else { b1 };
    let s3 = s2 + slot(row - 1, col + 1, width);
    let b3 = if in_grid(row - 1, col + 1, width) { index - width + 2 } else { b2 };
    let s4 = s3 + slot(row, col - 1, width);
    let b4 = if in_grid(row, col - 1, width) { index } else { b3 };
    let s5 = s4 + slot(row, col + 1, width);
    let b5 = if in_grid(row, col + 1, width) { index + 2 } else { b4 };
    let s6 = s5 + slot(row + 1, col - 1, width);
    let b6 = if in_grid(row + 1, col - 1, width) { index + width } else { b5 };
    let s7 = s6 + slot(row + 1, col, width);
    let b7 = if in_grid(row + 1, col, width) { index + width + 1 } else { b6 };
    let s8 = s7 + slot(row + 1, col + 1, width);
    lemma_append_slot(s0, b0, row - 1, col - 1, width);
    lemma_append_slot(s1, b1, row - 1, col, width);
    lemma_append_slot(s2, b2, row - 1, col + 1, width);
    lemma_append_slot(s3, b3, row, col - 1, width);
    lemma_append_slot(s4, b4, row, col + 1, width);
    lemma_append_slot(s5, b5, row + 1, col - 1, width);
    lemma_append_slot(s6, b6, row + 1, col, width);
    lemma_append_slot(s7, b7, row + 1, col + 1, width);
    assert(s8 == neighbor_seq(index, width));
    assert forall|x: int| s8.contains(x) <==> surrounds(x, row, col, width) by {
        assert(!s0.contains(x));
    }
}

/// The indices of the surrounding positions on the field are the cells
/// that touch the cell.
proof fn lemma_surrounds_is_neighbor(index: int, other: int, width: int)
    requires
        width > 0,
        0 <= index < width * width,
    ensures
        surrounds(other, index / width, index % width, width) <==> is_neighbor(
            index,
            other,
            width,
        ),
{
    let row = index / width;
    let col = index % width;
    lemma_index_splits(index, width);
    if is_neighbor(index, other, width) {
        lemma_index_splits(other, width);
        let down = other / width - row;
        let right = other % width - col;
        assert(fills(other, row + down, col + right, width));
    }
    if fills(other, row - 1, col - 1, width) {
        lemma_cell_index_splits(row - 1, col - 1, width);
    }
    if fills(other, row - 1, col, width) {
        lemma_cell_index_splits(row - 1, col, width);
    }
    if fills(other, row - 1, col + 1, width) {
        lemma_cell_index_splits(row - 1, col + 1, width);
    }
    if fills(other, row, col - 1, width) {
        lemma_cell_index_splits(row, col - 1, width);
    }
    if fills(other, row, col + 1, width) {
        lemma_cell_index_splits(row, col + 1, width);
    }
    if fills(other, row + 1, col - 1, width) {
        lemma_cell_index_splits(row + 1, col - 1, width);
    }
    if fills(other, row + 1, col, width) {
        lemma_cell_index_splits(row + 1, col, width);
    }
    if fills(other, row + 1, col + 1, width) {
        lemma_cell_index_splits(row + 1, col + 1, width);
    }
}

/// A cell has as many cells around it as its place on the field allows.
proof fn lemma_neighbor_seq_len(index: int, width: int)
    requires
        width > 0,
        0 <= index < width * width,
    ensures
        neighbor_seq(index, width).len() == neighbor_count(index, width),
        neighbor_count(index, width) <= 8,
{
    let row = index / width;
    let col = index % width;
    lemma_index_splits(index, width);
    let tall = span(row, width);
    let wide = span(col, width);
    assert(tall * wide == if row > 0 && row + 1 < width {
        3 * wide
    } else if row > 0 || row + 1 < width {
        2 * wide
    } else {
        wide
    }) by (nonlinear_arith)
        requires
            tall == 1 + (if row > 0 {
                1int
            } else {
                0int
            }) + (if row + 1 < width {
                1int
            } else {
                0int
            }),
    ;
}

/// What holds of the cells around a cell: they are exactly the cells of
/// the field that touch it, the cell itself not among them; they stand in
/// strictly rising order; and they are three in a corner, five on an edge
/// and eight inside.
pub proof fn lemma_neighbor_seq(index: int, width: int)
    requires
        width > 0,
        0 <= index < width * width,
    ensures
        neighbor_seq(index, width).len() == neighbor_count(index, width),
        neighbor_count(index, width) <= 8,
        forall|other: int|
            is_neighbor(index, other, width) <==> neighbor_seq(index, width).contains(other),
        forall|a: int, b: int|
            0 <= a < b < neighbor_seq(index, width).len() ==> neighbor_seq(index, width)[a]
                < neighbor_seq(index, width)[b],
{
    lemma_neighbor_seq_len(index, width);
    lemma_neighbor_seq_holds(index, width);
    assert forall|other: int| is_neighbor(index, other, width) <==> neighbor_seq(
        index,
        width,
    ).contains(other) by {
        lemma_surrounds_is_neighbor(index, other, width);
    }
}

/// Whether a row, or a column, is the first or the last of the field.
pub open spec fn on_border(at: int, width: int) -> bool {
    at == 0 || at == width - 1
}

/// On a field of at least two by two, a cell in a corner has three cells
/// around it, any other cell on an edge has five, and a cell inside has
/// eight.
pub proof fn lemma_neighbor_count_by_place(index: int, width: int)
    requires
        width >= 2,
        0 <= index < width * width,
    ensures
        ({
            let row_out = on_border(index / width, width);
            let col_out = on_border(index % width, width);
            &&& row_out && col_out ==> neighbor_count(index, width) == 3
            &&& row_out != col_out ==> neighbor_count(index, width) == 5
            &&& !row_out && !col_out ==> neighbor_count(index, width) == 8
        }),
{
    lemma_index_splits(index, width);
    let tall = span(index / width, width);
    let wide = span(index % width, width);
    assert(tall == if on_border(index / width, width) { 2int } else { 3int });
    assert(wide == if on_border(index % width, width) { 2int } else { 3int });
    assert(tall * wide == if tall == 2 { 2 * wide } else { 3 * wide }) by (nonlinear_arith)
        requires
            tall == 2 || tall == 3,
    ;
}

/// A list that has gained a cell's index where the cell exists, and
/// nothing where it does not, has gained that position's slot.
proof fn lemma_slot_step(
    before: Seq<usize>,
    after: Seq<usize>,
    value: int,
    row: int,
    col: int,
    width: int,
)
    requires
        in_grid(row, col, width) ==> value == cell_index(row, col, width) && 0 <= value
            <= usize::MAX && after == before.push(value as usize),
        !in_grid(row, col, width) ==> after == before,
    ensures
        as_ints(after) == as_ints(before) + slot(row, col, width),
{
    assert(as_ints(after) =~= as_ints(before) + slot(row, col, width));
}

/// What a list holds that matches the cells around `index`: exactly the
/// cells that touch it, in strictly rising order, as many as the cell's
/// place on the field allows.
proof fn lemma_neighbor_list(list: Seq<usize>, index: int, width: int)
    requires
        width > 0,
        0 <= index < width * width,
        as_ints(list) == neighbor_seq(index, width),
    ensures
        list.len() == neighbor_count(index, width),
        forall|other: usize| is_neighbor(index, other as int, width) <==> list.contains(other),
        forall|a: int, b: int| 0 <= a < b < list.len() ==> list[a] < list[b],
{
    let ints = as_ints(list);
    lemma_neighbor_seq(index, width);
    assert forall|other: usize| is_neighbor(index, other as int, width) implies list.contains(
        other,
    ) by {
        let k = choose|k: int| 0 <= k < ints.len() && ints[k] == other as int;
        assert(list[k] == other);
    }
    assert forall|other: usize| list.contains(other) implies is_neighbor(
        index,
        other as int,
        width,
    ) by {
        let k = choose|k: int| 0 <= k < list.len() && list[k] == other;
        assert(ints[k] == other as int);
    }
    assert forall|a: int, b: int| 0 <= a < b < list.len() implies list[a] < list[b] by {
        assert(ints[a] < ints[b]);
    }
}

/// The cells around `index` on a field of `width` by `width`, in rising
/// order. An index that is no cell of the field is refused.
pub fn neighbors_of(index: usize, width: usize) -> (found: Result<Vec<usize>, GridError>)
    requires
        width_fits(width as nat),
    ensures
        index < width * width <==> found is Ok,
        found matches Err(e) ==> e == GridError::OutOfRange,
        found matches Ok(list) ==> {
            &&& as_ints(list@) == neighbor_seq(index as int, width as int)
            &&& list@.len() == neighbor_count(index as int, width as int)
            &&& forall|other: usize|
                is_neighbor(index as int, other as int, width as int) <==> list@.contains(other)
            &&& forall|a: int, b: int| 0 <= a < b < list@.len() ==> list@[a] < list@[b]
        },
{
    if width == 0 {
        assert(width * width == 0) by (nonlinear_arith)
            requires
                width == 0,
        ;
        return Err(GridError::OutOfRange);
    }
    if index >= width * width {
        return Err(GridError::OutOfRange);
    }
    let row: usize = index / width;
    let col: usize = index % width;
    let ghost r = row as int;
    let ghost c = col as int;
    let ghost w = width as int;
    proof {
        lemma_surroundings(index as int, w);
    }
    let has_top: bool = row > 0;
    let has_bottom: bool = row + 1 < width;
    let has_left: bool = col > 0;
    let has_right: bool = col + 1 < width;
    let mut list: Vec<usize> = Vec::new();
    let ghost l0 = list@;
    if has_top && has_left {
        list.push(index - width - 1);
    }
    let ghost l1 = list@;
    if has_top {
        list.push(index - width);
    }
    let ghost l2 = list@;
    if has_top && has_right {
        list.push(index - width + 1);
    }
    let ghost l3 = list@;
    if has_left {
        list.push(index - 1);
    }
    let ghost l4 = list@;
    if has_right {
        list.push(index + 1);
    }
    let ghost l5 = list@;
    if has_bottom && has_left {
        list.push(index + width - 1);
    }
    let ghost l6 = list@;
    if has_bottom {
        list.push(index + width);
    }
    let ghost l7 = list@;
    if has_bottom && has_right {
        list.push(index + width + 1);
    }
    proof {
        lemma_slot_step(l0, l1, index - width - 1, r - 1, c - 1, w);
        lemma_slot_step(l1, l2, index - width, r - 1, c, w);
        lemma_slot_step(l2, l3, index - width + 1, r - 1, c + 1, w);
        lemma_slot_step(l3, l4, index - 1, r, c - 1, w);
        lemma_slot_step(l4, l5, index + 1, r, c + 1, w);
        lemma_slot_step(l5, l6, index + width - 1, r + 1, c - 1, w);
        lemma_slot_step(l6, l7, index + width, r + 1, c, w);
        lemma_slot_step(l7, list@, index + width + 1, r + 1, c + 1, w);
        assert(as_ints(l0) =~= Seq::<int>::empty());
        assert(as_ints(list@) =~= neighbor_seq(index as int, w));
        lemma_neighbor_list(list@, index as int, w);
    }
    Ok(list)
}

/// Counting over a list that gained a slot adds what that position holds.
proof fn lemma_count_slot(cells: Seq<bool>, list: Seq<int>, row: int, col: int, width: int)
    ensures
        count_live(cells, list + slot(row, col, width)) == count_live(cells, list) + live(
            cells,
            width,
            row,
            col,
        ),
{
    let longer = list + slot(row, col, width);
    if in_grid(row, col, width) {
        assert(longer.drop_last() =~= list);
        assert(longer.last() == cell_index(row, col, width));
    } else {
        assert(longer =~= list);
    }
}

/// Counting the live cells in the list of a cell's neighbours gives the
/// number of live cells around it.
pub proof fn lemma_count_neighbors(cells: Seq<bool>, index: int, width: int)
    ensures
        count_live(cells, neighbor_seq(index, width)) == live_neighbors(
            cells,
            width,
            index / width,
            index % width,
        ),
{
    let row = index / width;
    let col = index % width;
    let s0 = Seq::<int>::empty();
    let s1 = s0 + slot(row - 1, col - 1, width);
    let s2 = s1 + slot(row - 1, col, width);
    let s3 = s2 + slot(row - 1, col + 1, width);
    let s4 = s3 + slot(row, col - 1, width);
    let s5 = s4 + slot(row, col + 1, width);
    let s6 = s5 + slot(row + 1, col - 1, width);
    let s7 = s6 + slot(row + 1, col, width);
    let s8 = s7 + slot(row + 1, col + 1, width);
    lemma_count_slot(cells, s0, row - 1, col - 1, width);
    lemma_count_slot(cells, s1, row - 1, col, width);
    lemma_count_slot(cells, s2, row - 1, col + 1, width);
    lemma_count_slot(cells, s3, row, col - 1, width);
    lemma_count_slot(cells, s4, row, col + 1, width);
    lemma_count_slot(cells, s5, row + 1, col - 1, width);
    lemma_count_slot(cells, s6, row + 1, col, width);
    lemma_count_slot(cells, s7, row + 1, col + 1, width);
    assert(s8 =~= neighbor_seq(index, width));
}

/// What the rule makes of one cell: with three live cells around it it is
/// alive in the next generation, with two it is what it was, and with
/// fewer than two or more than three it is dead.
pub proof fn lemma_next_cell(cells: Seq<bool>, width: int, index: int)
    requires
        0 <= index < cells.len(),
    ensures
        ({
            let around = live_neighbors(cells, width, index / width, index % width);
            let next = next_cells(cells, width)[index];
            &&& 0 <= around <= 8
            &&& around == 3 ==> next
            &&& around == 2 ==> next == cells[index]
            &&& around < 2 || around > 3 ==> !next
        }),
        next_cells(cells, width).len() == cells.len(),
{
}

/// No spontaneous birth: the generation after one without a live cell has
/// no live cell.
pub proof fn lemma_dead_stays_dead(cells: Seq<bool>, width: int)
    requires
        width > 0,
        cells.len() == width * width,
        forall|i: int| 0 <= i < cells.len() ==> !cells[i],
    ensures
        next_cells(cells, width) == cells,
{
    let next = next_cells(cells, width);
    assert forall|i: int| 0 <= i < cells.len() implies next[i] == cells[i] by {
        lemma_all_positions(width);
        assert(live_neighbors(cells, width, i / width, i % width) == 0);
    }
    assert(next =~= cells);
}

/// Underpopulation: where one cell is alive and no other, the next
/// generation has no live cell.
pub proof fn lemma_lone_cell_dies(cells: Seq<bool>, width: int, index: int)
    requires
        width > 0,
        cells.len() == width * width,
        0 <= index < cells.len(),
        forall|i: int| 0 <= i < cells.len() ==> (cells[i] <==> i == index),
    ensures
        forall|i: int| 0 <= i < cells.len() ==> !(#[trigger] next_cells(cells, width)[i]),
{
    let next = next_cells(cells, width);
    assert forall|i: int| 0 <= i < cells.len() implies !(#[trigger] next[i]) by {
        lemma_all_positions(width);
        lemma_index_splits(i, width);
        assert(live_neighbors(cells, width, i / width, i % width) <= 1);
    }
}

/// The number of live cells around the cell at `index`. An index that is
/// no cell of the grid is refused.
pub fn live_around(grid: &Grid, index: usize) -> (counted: Result<usize, GridError>)
    requires
        grid.wf(),
    ensures
        index < grid@.len() <==> counted is Ok,
        counted matches Err(e) ==> e == GridError::OutOfRange,
        counted matches Ok(around) ==> around == live_neighbors(
            grid@,
            grid.spec_width() as int,
            index as int / grid.spec_width() as int,
            index as int % grid.spec_width() as int,
        ) && around <= 8,
{
    let width: usize = grid.width();
    let list: Vec<usize> = match neighbors_of(index, width) {
        Ok(list) => list,
        Err(e) => {
            return Err(e);
        },
    };
    let ghost ints = as_ints(list@);
    assert forall|k: int| 0 <= k < list@.len() implies (#[trigger] list@[k]) < grid@.len() by {
        assert(list@.contains(list@[k]));
    }
    let mut around: usize = 0;
    let mut at: usize = 0;
    while at < list.len()
        invariant
            grid.wf(),
            at <= list.len(),
            ints == as_ints(list@),
            forall|k: int| 0 <= k < list@.len() ==> (#[trigger] list@[k]) < grid@.len(),
            around == count_live(grid@, ints.take(at as int)),
            around <= at,
        decreases list.len() - at,
    {
        let cell: usize = list[at];
        let alive: bool = grid.is_alive(cell).unwrap();
        proof {
            let longer = ints.take(at as int + 1);
            assert(longer.drop_last() =~= ints.take(at as int));
            assert(longer.last() == cell as int);
        }
        if alive {
            around = around + 1;
        }
        at = at + 1;
    }
    proof {
        assert(ints.take(at as int) =~= ints);
        lemma_count_neighbors(grid@, index as int, width as int);
        lemma_neighbor_seq(index as int, width as int);
    }
    Ok(around)
}

/// The generation that follows the grid's, computed into a buffer of its
/// own so that every cell is counted against the generation given.
pub fn next_generation(grid: &Grid) -> (next: Vec<bool>)
    requires
        grid.wf(),
    ensures
        next@ == next_cells(grid@, grid.spec_width() as int),
{
    let count: usize = grid.len();
    let ghost width = grid.spec_width() as int;
    let mut next: Vec<bool> = Vec::new();
    let mut index: usize = 0;
    while index < count
        invariant
            grid.wf(),
            count == grid@.len(),
            width == grid.spec_width(),
            index <= count,
            next@.len() == index,
            forall|i: int|
                0 <= i < index ==> next@[i] == alive_next(
                    grid@[i],
                    live_neighbors(grid@, width, i / width, i % width),
                ),
        decreases count - index,
    {
        let around: usize = live_around(grid, index).unwrap();
        let alive: bool = grid.is_alive(index).unwrap();
        let state: bool = if around == 3 {
            true
        } else if around < 2 || around > 3 {
            false
        } else {
            alive
        };
        next.push(state);
        index = index + 1;
    }
    assert(next@ =~= next_cells(grid@, width));
    next
}

} // verus!
