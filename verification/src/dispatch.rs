//! What the evaluator is told besides the parameters of a batch: the shape
//! of the grid of evaluations, the size of a group of them, and the table of
//! doubled digits.

use crate::domain::IterationDomain;
use crate::oracle::doubled;
use vstd::prelude::*;

verus! {

/// A number of evaluations along each of the three axes.
#[derive(Clone, Copy, Debug, PartialEq, Eq)]
pub struct GridSize {
    pub width: u64,
    pub height: u64,
    pub depth: u64,
}

/// The number of evaluations that run as one group.
pub const GROUP_WIDTH: u64 = 128;

/// The size of a group of evaluations: a row of `GROUP_WIDTH` along the first
/// axis.
pub fn max_group() -> (g: GridSize)
    ensures
        g == (GridSize { width: GROUP_WIDTH, height: 1, depth: 1 }),
{
    GridSize { width: GROUP_WIDTH, height: 1, depth: 1 }
}

/// The grid of one batch: one evaluation per cell, with the `a` axis first,
/// so that it varies fastest in the mask.
pub fn grid_size(domain: &IterationDomain) -> (g: GridSize)
    ensures
        g == (GridSize {
            width: domain.extent_a as u64,
            height: domain.extent_b as u64,
            depth: domain.extent_c as u64,
        }),
        g.width * g.height * g.depth == domain.cells(),
{
    GridSize {
        width: domain.extent_a as u64,
        height: domain.extent_b as u64,
        depth: domain.extent_c as u64,
    }
}

/// The table that gives, for each digit, what it adds to the checksum at a
/// doubled place.
pub fn multipliers() -> (table: [u16; 10])
    ensures
        forall|d: int| 0 <= d < 10 ==> table@[d] == doubled(d),
{
    [0, 2, 4, 6, 8, 1, 3, 5, 7, 9]
}

} // verus!
