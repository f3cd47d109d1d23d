//! Discrete core of the gamma seed simulator: the stage state machine of the
//! seed and the dependency graph along which a cycle propagates the seed's
//! output through the dimensions.

use vstd::prelude::*;

pub mod dimension;
pub mod phase;

verus! {

} // verus!
