use vstd::prelude::*;

verus! {

/// Coordinate direction of a one-dimensional operation on the grid.
///
/// For grid-line selection, `X` denotes the family of vertical lines
/// `x = x_i` (fixed `i`, varying `j`) and `Y` the family of horizontal
/// lines `y = y_j` (fixed `j`, varying `i`).
#[derive(Clone, Copy, Debug, PartialEq, Eq)]
pub enum Direction {
    X,
    Y,
}

} // verus!
