//! A 3-component integer vector in sub-units.

use vstd::prelude::*;

verus! {

/// World-space vector; each component counts sub-units.
#[derive(Clone, Copy, PartialEq, Eq, Structural, Debug)]
pub struct V3 {
    pub x: i64,
    pub y: i64,
    pub z: i64,
}

impl V3 {
    /// Build a vector from its components.
    pub fn new(x: i64, y: i64, z: i64) -> (v: V3)
        ensures
            v == (V3 { x, y, z }),
    {
        V3 { x, y, z }
    }
}

} // verus!
