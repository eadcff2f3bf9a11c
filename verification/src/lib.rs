//! Local-search optimization kernel for the two-cycle traveling salesman
//! problem: all cities are partitioned into two disjoint closed tours whose
//! summed length is the objective.  The kernel evaluates and applies five
//! families of structural tour transformations with exact incremental cost
//! deltas, and drives them to a local optimum under one of four selection
//! policies.

use vstd::prelude::*;

pub mod cost;
pub mod instance;
pub mod local_search;
pub mod moves;
pub mod solution;

verus! {

/// Largest distance an `Instance` may hold for a single edge.
pub const MAX_DISTANCE: i64 = 1_000_000_000;

/// Largest number of cities an `Instance` may hold.
pub const MAX_DIMENSION: usize = 1_000_000;

} // verus!
