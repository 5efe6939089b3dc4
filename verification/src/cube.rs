use vstd::prelude::*;

use crate::geometry::{in_domain, Location, Range};
use crate::pixel::{empty_pixel, spec_empty_pixel, PixelState};

verus! {

/// One stored voxel: a location together with its pixel value.
pub type Entry = (Location, PixelState);

/// The cube state: an ordered collection of entries, kept in a `SmallVec` so
/// that small deltas (a handful of pending changes) avoid heap allocation.
#[verifier::external_body]
pub struct CubeState {
    inner: smallvec::SmallVec<[Entry; 5]>,
}

/// The sequence of entries a cube state holds, in storage order.
pub uninterp spec fn cube_entries(c: CubeState) -> Seq<Entry>;

impl CubeState {
    /// Relies on SmallVec::new: a freshly created vector holds no elements.
    #[verifier::external_body]
    pub fn new() -> (r: CubeState)
        ensures
            cube_entries(r) == Seq::<Entry>::empty(),
    {
        CubeState { inner: smallvec::SmallVec::new() }
    }

    /// Relies on SmallVec::push: appends one element at the back, keeping the
    /// elements already present in place.
    #[verifier::external_body]
    pub fn push(&mut self, e: Entry)
        ensures
            cube_entries(*final(self)) == cube_entries(*old(self)).push(e),
    {
        self.inner.push(e)
    }

    /// Relies on SmallVec::len: returns the number of elements held.
    #[verifier::external_body]
    pub fn len(&self) -> (r: usize)
        ensures
            r == cube_entries(*self).len(),
    {
        self.inner.len()
    }

    /// Relies on SmallVec's deref to a slice: indexing reads the element in
    /// place.
    #[verifier::external_body]
    pub fn get(&self, i: usize) -> (r: Entry)
        requires
            i < cube_entries(*self).len(),
        ensures
            r == cube_entries(*self)[i as int],
    {
        self.inner[i]
    }
}

/// Every entry of the sequence names a location inside the cube's domain.
pub open spec fn all_in_domain(s: Seq<Entry>) -> bool {
    forall|i: int| 0 <= i < s.len() ==> in_domain((#[trigger] s[i]).0)
}

/// Some entry of the sequence names the given location.
pub open spec fn has_loc(s: Seq<Entry>, l: Location) -> bool {
    exists|i: int| 0 <= i < s.len() && (#[trigger] s[i]).0 == l
}

/// The storage index a full cube keeps a location at. Planes are generated
/// bottom plane first (z ascending), rows top first (stored y descending),
/// cells left first (x ascending).
pub open spec fn canon_index(l: Location) -> int {
    l.z * 25 + (4 - l.y) * 5 + l.x
}

/// An authoritative, fully populated cube: 125 entries, the entry for each
/// valid location sitting at its canonical index, and nothing else.
pub open spec fn full_canonical(s: Seq<Entry>) -> bool {
    &&& s.len() == 125
    &&& forall|l: Location| in_domain(l) ==> s[#[trigger] canon_index(l)].0 == l
    &&& forall|k: int| 0 <= k < 125 ==> in_domain((#[trigger] s[k]).0) && canon_index(s[k].0) == k
}

/// `i` is the position of the first entry for location `l`.
pub open spec fn is_first_match(s: Seq<Entry>, l: Location, i: int) -> bool {
    &&& 0 <= i < s.len()
    &&& s[i].0 == l
    &&& forall|j: int| 0 <= j < i ==> (#[trigger] s[j]).0 != l
}

/// The pixel the last entry of `delta` for location `l` carries, if any.
/// When a delta is folded into the cube entry by entry, the last write wins.
pub open spec fn delta_last(delta: Seq<Entry>, l: Location) -> Option<PixelState>
    decreases delta.len(),
{
    if delta.len() == 0 {
        None
    } else if delta.last().0 == l {
        Some(delta.last().1)
    } else {
        delta_last(delta.drop_last(), l)
    }
}

/// The pixel a location shows before a delta is applied: its entry in the old
/// cube, or the empty pixel when the cube was still uninitialized.
pub open spec fn base_pixel(base: Seq<Entry>, l: Location) -> PixelState {
    if base.len() == 0 {
        crate::pixel::spec_empty_pixel()
    } else {
        base[canon_index(l)].1
    }
}

/// What folding the delta `delta` into the authoritative cube `base` yields:
/// a full canonical cube in which each valid location shows the last pixel the
/// delta wrote for it, or its previous value (empty on first use) otherwise.
pub open spec fn light_rel(base: Seq<Entry>, delta: Seq<Entry>, out: Seq<Entry>) -> bool {
    &&& full_canonical(out)
    &&& forall|l: Location|
        in_domain(l) ==> out[#[trigger] canon_index(l)].1 == (match delta_last(delta, l) {
            Some(p) => p,
            None => base_pixel(base, l),
        })
}

/// The storage position a plane generator gives the cell `(zi, yi, xi)` of a
/// sub-volume with `dx` cells per row and `dy` rows per layer: layers first,
/// then rows, then cells.
pub open spec fn plane_index(dx: int, dy: int, zi: int, yi: int, xi: int) -> int {
    (zi * dy + yi) * dx + xi
}

/// `(zi, yi, xi)` is generated strictly before `(zc, yc, xc)` in the layer /
/// row / cell generation order.
pub open spec fn lex_before(zi: int, yi: int, xi: int, zc: int, yc: int, xc: int) -> bool {
    zi < zc || (zi == zc && (yi < yc || (yi == yc && xi < xc)))
}

/// The entry a plane generator emits for the cell `(zi, yi, xi)` of the
/// sub-volume starting at `(x0, y0, z0)`: the iterated y coordinate is stored
/// inverted (`4 - y`), encoding the top-to-bottom addressing convention.
pub open spec fn plane_entry(
    x0: int,
    y0: int,
    z0: int,
    p: PixelState,
    zi: int,
    yi: int,
    xi: int,
) -> Entry {
    (
        Location { x: (x0 + xi) as usize, y: (4 - (y0 + yi)) as usize, z: (z0 + zi) as usize },
        p,
    )
}

#[verifier::nonlinear]
proof fn lemma_plane_index_mono(
    dx: int,
    dy: int,
    zi: int,
    yi: int,
    xi: int,
    zc: int,
    yc: int,
    xc: int,
)
    requires
        0 <= xi < dx,
        0 <= yi < dy,
        0 <= zi,
        0 <= xc,
        0 <= yc,
        0 <= zc,
        lex_before(zi, yi, xi, zc, yc, xc),
    ensures
        0 <= plane_index(dx, dy, zi, yi, xi) < plane_index(dx, dy, zc, yc, xc),
{
}

/// Enumerates every coordinate triple of the given half-open ranges (each a
/// subrange of `[0, 5)`) and pairs it with the supplied pixel state, covering
/// exactly that sub-volume. Iteration ascends z, then y, then x, and the
/// stored y coordinate is `4 - y`, so row 0 of the iterated range lands on the
/// top row of the cube.
pub fn plane(x_range: Range, y_range: Range, z_range: Range, pixel_state: PixelState) -> (r:
    CubeState)
    requires
        x_range[0] <= x_range[1] <= 5,
        y_range[0] <= y_range[1] <= 5,
        z_range[0] <= z_range[1] <= 5,
    ensures
        ({
            let dx = x_range[1] - x_range[0];
            let dy = y_range[1] - y_range[0];
            let dz = z_range[1] - z_range[0];
            &&& cube_entries(r).len() == dz * dy * dx
            &&& forall|zi: int, yi: int, xi: int|
                0 <= zi < dz && 0 <= yi < dy && 0 <= xi < dx
                    ==> cube_entries(r)[#[trigger] plane_index(dx, dy, zi, yi, xi)] == plane_entry(
                    x_range[0] as int,
                    y_range[0] as int,
                    z_range[0] as int,
                    pixel_state,
                    zi,
                    yi,
                    xi,
                )
        }),
{
    let x0 = x_range[0];
    let x1 = x_range[1];
    let y0 = y_range[0];
    let y1 = y_range[1];
    let z0 = z_range[0];
    let z1 = z_range[1];
    let ghost dx: int = x1 - x0;
    let ghost dy: int = y1 - y0;
    let ghost dz: int = z1 - z0;
    let mut cube = CubeState::new();
    proof {
        assert(plane_index(dx, dy, 0, 0, 0) == 0) by (nonlinear_arith);
    }
    let mut z = z0;
    while z < z1
        invariant
            x0 <= x1 <= 5,
            y0 <= y1 <= 5,
            z0 <= z1 <= 5,
            z0 <= z <= z1,
            dx == x1 - x0,
            dy == y1 - y0,
            dz == z1 - z0,
            cube_entries(cube).len() == plane_index(dx, dy, z - z0, 0, 0),
            forall|zi: int, yi: int, xi: int|
                0 <= zi < dz && 0 <= yi < dy && 0 <= xi < dx && lex_before(
                    zi,
                    yi,
                    xi,
                    z - z0,
                    0,
                    0,
                ) ==> cube_entries(cube)[#[trigger] plane_index(dx, dy, zi, yi, xi)]
                    == plane_entry(x0 as int, y0 as int, z0 as int, pixel_state, zi, yi, xi),
        decreases z1 - z,
    {
        let mut y = y0;
        while y < y1
            invariant
                x0 <= x1 <= 5,
                y0 <= y1 <= 5,
                z0 <= z1 <= 5,
                z0 <= z < z1,
                y0 <= y <= y1,
                dx == x1 - x0,
                dy == y1 - y0,
                dz == z1 - z0,
                cube_entries(cube).len() == plane_index(dx, dy, z - z0, y - y0, 0),
                forall|zi: int, yi: int, xi: int|
                    0 <= zi < dz && 0 <= yi < dy && 0 <= xi < dx && lex_before(
                        zi,
                        yi,
                        xi,
                        z - z0,
                        y - y0,
                        0,
                    ) ==> cube_entries(cube)[#[trigger] plane_index(dx, dy, zi, yi, xi)]
                        == plane_entry(x0 as int, y0 as int, z0 as int, pixel_state, zi, yi, xi),
            decreases y1 - y,
        {
            let mut x = x0;
            while x < x1
                invariant
                    x0 <= x1 <= 5,
                    y0 <= y1 <= 5,
                    z0 <= z1 <= 5,
                    z0 <= z < z1,
                    y0 <= y < y1,
                    x0 <= x <= x1,
                    dx == x1 - x0,
                    dy == y1 - y0,
                    dz == z1 - z0,
                    cube_entries(cube).len() == plane_index(dx, dy, z - z0, y - y0, x - x0),
                    forall|zi: int, yi: int, xi: int|
                        0 <= zi < dz && 0 <= yi < dy && 0 <= xi < dx && lex_before(
                            zi,
                            yi,
                            xi,
                            z - z0,
                            y - y0,
                            x - x0,
                        ) ==> cube_entries(cube)[#[trigger] plane_index(dx, dy, zi, yi, xi)]
                            == plane_entry(
                            x0 as int,
                            y0 as int,
                            z0 as int,
                            pixel_state,
                            zi,
                            yi,
                            xi,
                        ),
                decreases x1 - x,
            {
                let ghost old_entries = cube_entries(cube);
                let ghost zc: int = z - z0;
                let ghost yc: int = y - y0;
                let ghost xc: int = x - x0;
                let entry = (Location { x, z, y: 4 - y }, pixel_state);
                cube.push(entry);
                proof {
                    assert(entry == plane_entry(
                        x0 as int,
                        y0 as int,
                        z0 as int,
                        pixel_state,
                        zc,
                        yc,
                        xc,
                    ));
                    assert forall|zi: int, yi: int, xi: int|
                        0 <= zi < dz && 0 <= yi < dy && 0 <= xi < dx && lex_before(
                            zi,
                            yi,
                            xi,
                            zc,
                            yc,
                            xc + 1,
                        ) implies cube_entries(cube)[#[trigger] plane_index(dx, dy, zi, yi, xi)]
                        == plane_entry(
                        x0 as int,
                        y0 as int,
                        z0 as int,
                        pixel_state,
                        zi,
                        yi,
                        xi,
                    ) by {
                        if lex_before(zi, yi, xi, zc, yc, xc) {
                            lemma_plane_index_mono(dx, dy, zi, yi, xi, zc, yc, xc);
                        } else {
                            assert(zi == zc && yi == yc && xi == xc);
                        }
                    }
                }
                x += 1;
            }
            proof {
                assert(plane_index(dx, dy, z - z0, y - y0, dx) == plane_index(
                    dx,
                    dy,
                    z - z0,
                    y + 1 - y0,
                    0,
                )) by (nonlinear_arith);
            }
            y += 1;
        }
        proof {
            assert(plane_index(dx, dy, z - z0, dy, 0) == plane_index(dx, dy, z + 1 - z0, 0, 0))
                by (nonlinear_arith);
        }
        z += 1;
    }
    proof {
        assert(plane_index(dx, dy, dz, 0, 0) == dz * dy * dx) by (nonlinear_arith);
    }
    cube
}

/// Generates the horizontal plane at iterated row `y` (stored as row `4 - y`),
/// covering all 25 `(x, z)` cells at the given pixel state.
pub fn gen_plane_y(y: usize, state: PixelState) -> (r: CubeState)
    requires
        y < 5,
    ensures
        cube_entries(r).len() == 25,
        forall|zi: int, xi: int|
            0 <= zi < 5 && 0 <= xi < 5 ==> cube_entries(r)[#[trigger] plane_index(5, 1, zi, 0, xi)]
                == (Location { x: xi as usize, y: (4 - y) as usize, z: zi as usize }, state),
{
    let r = plane([0, 5], crate::geometry::to_range(y), [0, 5], state);
    proof {
        assert(5int * 1int * 5int == 25) by (nonlinear_arith);
        assert forall|zi: int, xi: int| 0 <= zi < 5 && 0 <= xi < 5 implies cube_entries(
            r,
        )[#[trigger] plane_index(5, 1, zi, 0, xi)] == (
            Location { x: xi as usize, y: (4 - y) as usize, z: zi as usize },
            state,
        ) by {
            assert(cube_entries(r)[plane_index(5, 1, zi, 0, xi)] == plane_entry(
                0,
                y as int,
                0,
                state,
                zi,
                0,
                xi,
            ));
        }
    }
    r
}

/// Generates the vertical plane at column `x`, covering all 25 `(y, z)` cells
/// at the given pixel state.
pub fn gen_plane_x(x: usize, state: PixelState) -> (r: CubeState)
    requires
        x < 5,
    ensures
        cube_entries(r).len() == 25,
        forall|zi: int, yi: int|
            0 <= zi < 5 && 0 <= yi < 5 ==> cube_entries(r)[#[trigger] plane_index(1, 5, zi, yi, 0)]
                == (Location { x, y: (4 - yi) as usize, z: zi as usize }, state),
{
    let r = plane(crate::geometry::to_range(x), [0, 5], [0, 5], state);
    proof {
        assert(1int * 5int * 5int == 25) by (nonlinear_arith);
        assert forall|zi: int, yi: int| 0 <= zi < 5 && 0 <= yi < 5 implies cube_entries(
            r,
        )[#[trigger] plane_index(1, 5, zi, yi, 0)] == (
            Location { x, y: (4 - yi) as usize, z: zi as usize },
            state,
        ) by {
            assert(cube_entries(r)[plane_index(1, 5, zi, yi, 0)] == plane_entry(
                x as int,
                0,
                0,
                state,
                zi,
                yi,
                0,
            ));
        }
    }
    r
}

/// Generates the depth plane at layer `z`, covering all 25 `(x, y)` cells at
/// the given pixel state.
pub fn gen_plane_z(z: usize, state: PixelState) -> (r: CubeState)
    requires
        z < 5,
    ensures
        cube_entries(r).len() == 25,
        forall|yi: int, xi: int|
            0 <= yi < 5 && 0 <= xi < 5 ==> cube_entries(r)[#[trigger] plane_index(5, 5, 0, yi, xi)]
                == (Location { x: xi as usize, y: (4 - yi) as usize, z }, state),
{
    let r = plane([0, 5], [0, 5], crate::geometry::to_range(z), state);
    proof {
        assert(5int * 5int * 1int == 25) by (nonlinear_arith);
        assert forall|yi: int, xi: int| 0 <= yi < 5 && 0 <= xi < 5 implies cube_entries(
            r,
        )[#[trigger] plane_index(5, 5, 0, yi, xi)] == (
            Location { x: xi as usize, y: (4 - yi) as usize, z },
            state,
        ) by {
            assert(cube_entries(r)[plane_index(5, 5, 0, yi, xi)] == plane_entry(
                0,
                0,
                z as int,
                state,
                0,
                yi,
                xi,
            ));
        }
    }
    r
}

/// Lifts one coordinate of a cell index back into its layer / row / cell
/// digits: every storage index of a full cube decomposes into three base-5
/// digits.
pub proof fn lemma_base5_decomp(k: int)
    requires
        0 <= k < 125,
    ensures
        exists|zi: int, yi: int, xi: int|
            0 <= zi < 5 && 0 <= yi < 5 && 0 <= xi < 5 && k == #[trigger] plane_index(
                5,
                5,
                zi,
                yi,
                xi,
            ),
    decreases k,
{
    if k == 0 {
        assert(0 == plane_index(5, 5, 0, 0, 0));
    } else {
        lemma_base5_decomp(k - 1);
        let (z, y, x) = choose|zi: int, yi: int, xi: int|
            0 <= zi < 5 && 0 <= yi < 5 && 0 <= xi < 5 && k - 1 == #[trigger] plane_index(
                5,
                5,
                zi,
                yi,
                xi,
            );
        if x < 4 {
            assert(k == plane_index(5, 5, z, y, x + 1));
        } else if y < 4 {
            assert(k == plane_index(5, 5, z, y + 1, 0));
        } else {
            assert(k == plane_index(5, 5, z + 1, 0, 0));
        }
    }
}

/// A full plane covering the whole cube is canonical: one entry per valid
/// location, each at its canonical index, all carrying the generating pixel.
pub proof fn lemma_plane_full_canonical(s: Seq<Entry>, p: PixelState)
    requires
        s.len() == 125,
        forall|zi: int, yi: int, xi: int|
            0 <= zi < 5 && 0 <= yi < 5 && 0 <= xi < 5 ==> s[#[trigger] plane_index(
                5,
                5,
                zi,
                yi,
                xi,
            )] == plane_entry(0, 0, 0, p, zi, yi, xi),
    ensures
        full_canonical(s),
        forall|k: int| 0 <= k < 125 ==> (#[trigger] s[k]).1 == p,
{
    assert forall|l: Location| in_domain(l) implies s[#[trigger] canon_index(l)].0 == l by {
        assert(canon_index(l) == plane_index(5, 5, l.z as int, 4 - l.y, l.x as int));
        assert(s[plane_index(5, 5, l.z as int, 4 - l.y, l.x as int)] == plane_entry(
            0,
            0,
            0,
            p,
            l.z as int,
            4 - l.y,
            l.x as int,
        ));
    }
    assert forall|k: int| 0 <= k < 125 implies in_domain((#[trigger] s[k]).0) && canon_index(
        s[k].0,
    ) == k && s[k].1 == p by {
        lemma_base5_decomp(k);
        let (zi, yi, xi) = choose|zi: int, yi: int, xi: int|
            0 <= zi < 5 && 0 <= yi < 5 && 0 <= xi < 5 && k == #[trigger] plane_index(
                5,
                5,
                zi,
                yi,
                xi,
            );
        assert(s[k] == plane_entry(0, 0, 0, p, zi, yi, xi));
    }
}

/// The canonical reset state: every location of the 5x5x5 domain paired with
/// the empty pixel.
pub fn empty_cube() -> (r: CubeState)
    ensures
        full_canonical(cube_entries(r)),
        forall|k: int| 0 <= k < 125 ==> (#[trigger] cube_entries(r)[k]).1 == spec_empty_pixel(),
{
    let r = plane([0, 5], [0, 5], [0, 5], empty_pixel());
    proof {
        lemma_plane_full_canonical(cube_entries(r), spec_empty_pixel());
    }
    r
}

/// Linear scan for the first entry holding the given location. The location
/// must be present: a miss would mean the authoritative cube lost an entry,
/// which is a broken invariant, not a recoverable state.
pub fn find_location_index(cube: &CubeState, location: Location) -> (r: usize)
    requires
        has_loc(cube_entries(*cube), location),
    ensures
        is_first_match(cube_entries(*cube), location, r as int),
{
    let n = cube.len();
    let mut i: usize = 0;
    while i < n
        invariant
            i <= n,
            n == cube_entries(*cube).len(),
            has_loc(cube_entries(*cube), location),
            forall|j: int| 0 <= j < i ==> (#[trigger] cube_entries(*cube)[j]).0 != location,
        decreases n - i,
    {
        if cube.get(i).0 == location {
            return i;
        }
        i += 1;
    }
    proof {
        let w = choose|w: int| 0 <= w < cube_entries(*cube).len() && (#[trigger] cube_entries(
            *cube,
        )[w]).0 == location;
        assert(false);
    }
    unreached()
}

/// Returns a fresh cube identical to the input except that the (single) entry
/// at the new pixel's location is overwritten with the new pixel. The entry
/// count never changes.
pub fn replace(cube: &CubeState, new_pixel: Entry) -> (r: CubeState)
    requires
        has_loc(cube_entries(*cube), new_pixel.0),
    ensures
        cube_entries(r).len() == cube_entries(*cube).len(),
        exists|i: int|
            is_first_match(cube_entries(*cube), new_pixel.0, i) && cube_entries(r) == cube_entries(
                *cube,
            ).update(i, new_pixel),
{
    let index = find_location_index(cube, new_pixel.0);
    let mut new_cube = CubeState::new();
    let n = cube.len();
    let mut i: usize = 0;
    while i < n
        invariant
            i <= n,
            n == cube_entries(*cube).len(),
            index < n,
            cube_entries(new_cube).len() == i,
            forall|j: int|
                0 <= j < i ==> #[trigger] cube_entries(new_cube)[j] == (if j == index as int {
                    new_pixel
                } else {
                    cube_entries(*cube)[j]
                }),
        decreases n - i,
    {
        if i == index {
            new_cube.push(new_pixel);
        } else {
            new_cube.push(cube.get(i));
        }
        i += 1;
    }
    proof {
        assert(cube_entries(new_cube) =~= cube_entries(*cube).update(index as int, new_pixel));
    }
    new_cube
}

} // verus!
