//! Population statistics of a grid.

use vstd::prelude::*;
use crate::cell::CellState;

verus! {

/// Population statistics for a ternary grid.
#[derive(Debug, Clone, PartialEq, Eq, Structural)]
pub struct PopulationStats {
    pub dead: usize,
    pub dormant: usize,
    pub alive: usize,
    pub total: usize,
}

/// How many cells of `cells` are in state `s`.
pub open spec fn occurrences(cells: Seq<CellState>, s: CellState) -> nat
    decreases cells.len(),
{
    if cells.len() == 0 {
        0
    } else {
        occurrences(cells.drop_last(), s) + if cells.last() == s {
            1nat
        } else {
            0nat
        }
    }
}

/// Every cell is in exactly one of the three states, so the three counts add
/// up to the number of cells.
pub proof fn lemma_occurrences_partition(cells: Seq<CellState>)
    ensures
        occurrences(cells, CellState::Dead) + occurrences(cells, CellState::Dormant)
            + occurrences(cells, CellState::Alive) == cells.len(),
    decreases cells.len(),
{
    if cells.len() > 0 {
        lemma_occurrences_partition(cells.drop_last());
    }
}

} // verus!
