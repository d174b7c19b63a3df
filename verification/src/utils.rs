//! Directions of a change between two consecutive values.

use vstd::prelude::*;

verus! {

/// The direction of a change between two consecutive values.
pub enum PEAK {
    UP,
    DOWN,
}

} // verus!
