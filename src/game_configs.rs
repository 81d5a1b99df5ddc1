use vstd::prelude::*;

use crate::world::Strat;

verus! {

/// How a landed piece is merged into the grids.
pub const ADD_STRATEGY: Strat = Strat::Generic;

/// Rows above the ground where a merged piece's search for room starts.
pub const GROUND_OFFSET: usize = 1;

} // verus!
