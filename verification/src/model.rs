//! The direction of optimisation.

use vstd::prelude::*;

verus! {

/// Whether the objective is to be made as small or as large as possible.
#[derive(Debug, Clone, Copy, PartialEq, Eq, Structural)]
pub enum Goal {
    Min,
    Max,
}

} // verus!
