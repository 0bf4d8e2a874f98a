//! The 3-vector of fixed-point coordinates.

use vstd::prelude::*;

verus! {

/// A point of the lattice or a normal vector.  `x` and `y` are fixed by the
/// lattice coordinates; `z` is the mutable height channel.  All components
/// are fixed-point numbers scaled by `2^16`.
#[derive(Clone, Copy, PartialEq, Eq, Structural, Debug)]
pub struct Vec3 {
    pub x: i64,
    pub y: i64,
    pub z: i64,
}

} // verus!
