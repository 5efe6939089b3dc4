use vstd::prelude::*;

use rand::Rng;

use crate::engine::LocationTransform;
use crate::geometry::{in_domain, Location};

verus! {

/// Relies on rand's thread_rng and Rng::gen_range: a value sampled from the
/// half-open range `0..n` lies below `n`; the range is non-empty, so the call
/// does not panic.
#[verifier::external_body]
fn random_below(n: u64) -> (r: u64)
    requires
        1 <= n,
    ensures
        r < n,
{
    rand::thread_rng().gen_range(0..n)
}

/// Where a coordinate lands when stepped one unit up or down: nothing when the
/// step would leave the domain.
pub open spec fn spec_step_coord(n: usize, up: bool) -> Option<usize> {
    if up {
        if n + 1 <= 4 {
            Some((n + 1) as usize)
        } else {
            None
        }
    } else {
        if n >= 1 {
            Some((n - 1) as usize)
        } else {
            None
        }
    }
}

/// Steps one coordinate one unit in the given direction, rejecting steps that
/// would leave the domain.
pub fn step_coord(n: usize, up: bool) -> (r: Option<usize>)
    requires
        n <= 4,
    ensures
        r == spec_step_coord(n, up),
{
    if up {
        if n + 1 <= 4 {
            Some(n + 1)
        } else {
            None
        }
    } else {
        if n >= 1 {
            Some(n - 1)
        } else {
            None
        }
    }
}

/// Moves a coordinate one unit up or down, the direction drawn at random.
/// Whatever direction comes back, the result is an adjacent in-domain
/// coordinate or nothing; away from the domain boundary a step always
/// succeeds.
pub fn plus_minus_1(n: usize) -> (r: Option<usize>)
    requires
        n <= 4,
    ensures
        r matches Some(m) ==> (m == n + 1 || m + 1 == n) && m <= 4,
        1 <= n <= 3 ==> r is Some,
{
    let up = random_below(2) == 1;
    step_coord(n, up)
}

/// Two locations differ in exactly one coordinate, by exactly one unit.
pub open spec fn unit_step(a: Location, b: Location) -> bool {
    ||| (coord_adjacent(a.x, b.x) && a.y == b.y && a.z == b.z)
    ||| (a.x == b.x && coord_adjacent(a.y, b.y) && a.z == b.z)
    ||| (a.x == b.x && a.y == b.y && coord_adjacent(a.z, b.z))
}

/// Two coordinates one unit apart.
pub open spec fn coord_adjacent(m: usize, n: usize) -> bool {
    n == m + 1 || n + 1 == m
}

/// A location whose every neighbour is still inside the domain.
pub open spec fn interior(l: Location) -> bool {
    1 <= l.x <= 3 && 1 <= l.y <= 3 && 1 <= l.z <= 3
}

/// Random single-axis walk: chooses one axis at random and moves one unit
/// along it in a random direction. A step that would leave the domain rejects
/// the move (the voxel vanishes); from an interior location a move is always
/// produced.
pub fn random_walker_transform_write_over(old_location: Location) -> (r: Option<Location>)
    requires
        in_domain(old_location),
    ensures
        r matches Some(nl) ==> in_domain(nl) && unit_step(old_location, nl),
        interior(old_location) ==> r is Some,
{
    let axis = random_below(3);
    if axis == 0 {
        match plus_minus_1(old_location.z) {
            Some(nz) => Some(Location { x: old_location.x, y: old_location.y, z: nz }),
            None => None,
        }
    } else if axis == 1 {
        match plus_minus_1(old_location.x) {
            Some(nx) => Some(Location { x: nx, y: old_location.y, z: old_location.z }),
            None => None,
        }
    } else {
        match plus_minus_1(old_location.y) {
            Some(ny) => Some(Location { x: old_location.x, y: ny, z: old_location.z }),
            None => None,
        }
    }
}

/// The random single-axis walk as a pluggable location rule.
pub struct RandomWalker;

impl LocationTransform for RandomWalker {
    open spec fn post(&self, l: Location, r: Option<Location>) -> bool {
        &&& (r matches Some(nl) ==> in_domain(nl) && unit_step(l, nl))
        &&& (interior(l) ==> r is Some)
    }

    fn transform(&self, l: Location) -> (r: Option<Location>) {
        random_walker_transform_write_over(l)
    }
}

} // verus!
