use vstd::prelude::*;

verus! {

/// One addressable cell of the 5x5x5 cube, identified by three coordinates,
/// each in the range 0..=4.
#[derive(Copy, Clone, Eq, PartialEq, Structural, Debug)]
pub struct Location {
    pub x: usize,
    pub y: usize,
    pub z: usize,
}

/// A location is valid when every coordinate lies inside the fixed 5x5x5 domain.
pub open spec fn in_domain(l: Location) -> bool {
    l.x < 5 && l.y < 5 && l.z < 5
}

/// A half-open coordinate range `[r[0], r[1])`, always a subrange of `[0, 5)`.
pub type Range = [usize; 2];

/// Lifts a single coordinate into the unit range `[n, n+1)`, used to slice one
/// plane out of the cube along an axis.
pub fn to_range(n: usize) -> (r: Range)
    requires
        n < 5,
    ensures
        r[0] == n,
        r[1] == n + 1,
{
    [n, n + 1]
}

} // verus!
