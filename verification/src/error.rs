//! The ways in which a request to the simulation core can be rejected.

use vstd::prelude::*;

verus! {

/// Why an operation on the grid was refused.
#[derive(Clone, Copy, Debug, PartialEq, Eq, Structural)]
pub enum GridError {
    /// A cell index was not below the number of cells.
    OutOfRange,
    /// The grid was asked to have no cells at all.
    InvalidConfiguration,
    /// A replacement buffer did not have exactly as many cells as the grid.
    SizeMismatch,
}

} // verus!
