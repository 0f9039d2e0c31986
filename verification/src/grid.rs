//! The cell grid: a square of boolean cells in row-major order whose size is
//! fixed when it is made.

use vstd::prelude::*;
use crate::error::GridError;

verus! {

/// Whether a grid of `width` by `width` cells can be indexed by `usize`.
pub open spec fn width_fits(width: nat) -> bool {
    width * width <= usize::MAX
}

/// The cells with the one at `index` flipped and every other cell as it was.
pub open spec fn toggled(cells: Seq<bool>, index: int) -> Seq<bool> {
    cells.update(index, !cells[index])
}

/// The cells of a fresh grid: `width * width` of them, all dead.
pub open spec fn all_dead(width: nat) -> Seq<bool> {
    Seq::new(width * width, |i: int| false)
}

/// A square grid of cells. The cell in row `r` and column `c` has the index
/// `r * width + c`; `true` means alive.
#[derive(Debug)]
pub struct Grid {
    width: usize,
    cells: Vec<bool>,
}

impl View for Grid {
    type V = Seq<bool>;

    /// The cells in row-major order.
    closed spec fn view(&self) -> Seq<bool> {
        self.cells@
    }
}

impl Grid {
    /// The number of cells in a row, and of rows.
    pub closed spec fn spec_width(&self) -> nat {
        self.width as nat
    }

    /// What every grid satisfies: it has at least one cell, and exactly
    /// `width * width` of them.
    pub open spec fn wf(&self) -> bool {
        &&& self.spec_width() > 0
        &&& width_fits(self.spec_width())
        &&& self@.len() == self.spec_width() * self.spec_width()
    }

    /// A grid of `width * width` dead cells. A width of zero is refused.
    pub fn new(width: usize) -> (made: Result<Grid, GridError>)
        requires
            width_fits(width as nat),
        ensures
            width == 0 <==> made is Err,
            made matches Err(e) ==> e == GridError::InvalidConfiguration,
            made matches Ok(grid) ==> grid.wf() && grid.spec_width() == width && grid@ == all_dead(
                width as nat,
            ),
    {
        if width == 0 {
            return Err(GridError::InvalidConfiguration);
        }
        let cells: Vec<bool> = vec![false; width * width];
        assert(cells@ =~= all_dead(width as nat));
        Ok(Grid { width, cells })
    }

    /// The number of cells in a row.
    pub fn width(&self) -> (width: usize)
        ensures
            width == self.spec_width(),
    {
        self.width
    }

    /// The number of cells.
    pub fn len(&self) -> (count: usize)
        ensures
            count == self@.len(),
    {
        self.cells.len()
    }

    /// The cells in row-major order, for reading.
    pub fn cells(&self) -> (cells: &Vec<bool>)
        ensures
            cells@ == self@,
    {
        &self.cells
    }

    /// Whether the cell at `index` is alive. An index that is no cell's is
    /// refused.
    pub fn is_alive(&self, index: usize) -> (state: Result<bool, GridError>)
        ensures
            index < self@.len() ==> state == Ok::<bool, GridError>(self@[index as int]),
            index >= self@.len() ==> state == Err::<bool, GridError>(GridError::OutOfRange),
    {
        if index < self.cells.len() {
            Ok(self.cells[index])
        } else {
            Err(GridError::OutOfRange)
        }
    }

    /// Flips the cell at `index` and leaves every other cell alone. An index
    /// that is no cell's is refused and nothing changes.
    pub fn toggle(&mut self, index: usize) -> (done: Result<(), GridError>)
        ensures
            old(self).wf() ==> final(self).wf(),
            final(self).spec_width() == old(self).spec_width(),
            index < old(self)@.len() ==> done is Ok && final(self)@ == toggled(
                old(self)@,
                index as int,
            ),
            index >= old(self)@.len() ==> done == Err::<(), GridError>(GridError::OutOfRange)
                && final(self)@ == old(self)@,
    {
        if index < self.cells.len() {
            let state: bool = self.cells[index];
            self.cells.set(index, !state);
            Ok(())
        } else {
            Err(GridError::OutOfRange)
        }
    }

    /// Swaps in a whole new generation. A buffer with another number of cells
    /// is refused and nothing changes.
    pub fn replace(&mut self, new_cells: Vec<bool>) -> (done: Result<(), GridError>)
        ensures
            old(self).wf() ==> final(self).wf(),
            final(self).spec_width() == old(self).spec_width(),
            new_cells@.len() == old(self)@.len() ==> done is Ok && final(self)@ == new_cells@,
            new_cells@.len() != old(self)@.len() ==> done == Err::<(), GridError>(
                GridError::SizeMismatch,
            ) && final(self)@ == old(self)@,
    {
        if new_cells.len() == self.cells.len() {
            self.cells = new_cells;
            Ok(())
        } else {
            Err(GridError::SizeMismatch)
        }
    }
}

/// Toggling the same cell twice gives back the cells one started with.
pub proof fn lemma_toggle_involution(cells: Seq<bool>, index: int)
    requires
        0 <= index < cells.len(),
    ensures
        toggled(toggled(cells, index), index) == cells,
        forall|other: int|
            0 <= other < cells.len() && other != index ==> toggled(cells, index)[other]
                == cells[other],
        toggled(cells, index)[index] == !cells[index],
        toggled(cells, index).len() == cells.len(),
{
    assert(toggled(toggled(cells, index), index) =~= cells);
}

} // verus!
