use vstd::prelude::*;

use crate::cube::{all_in_domain, cube_entries, CubeState, Entry};
use crate::geometry::{in_domain, Location};
use crate::pixel::{empty_pixel, spec_empty_pixel, PixelState};

verus! {

/// A selector decides, for one candidate voxel and with the whole cube as
/// context, whether that voxel belongs to the filtered view; it returns the
/// selected location, or nothing.
pub trait Selector: Sized {
    /// The pure decision the selector makes.
    spec fn spec_select(&self, cube: Seq<Entry>, loc: Location, pixel: PixelState) -> Option<
        Location,
    >;

    /// Evaluates the selector on one voxel; the result is exactly the pure
    /// decision.
    fn select(&self, cube: &CubeState, loc: Location, pixel: PixelState) -> (r: Option<Location>)
        ensures
            r == self.spec_select(cube_entries(*cube), loc, pixel),
    ;
}

/// The subsequence of `s` whose entries the selector accepts, each judged with
/// `ctx` as context, in their original order.
pub open spec fn spec_selection<S: Selector>(sel: &S, ctx: Seq<Entry>, s: Seq<Entry>) -> Seq<Entry>
    decreases s.len(),
{
    if s.len() == 0 {
        Seq::empty()
    } else {
        let rest = spec_selection(sel, ctx, s.drop_last());
        if sel.spec_select(ctx, s.last().0, s.last().1) is Some {
            rest.push(s.last())
        } else {
            rest
        }
    }
}

/// Evaluates the selector against every entry of the cube and returns the
/// sub-state of entries it accepted. A selector that accepts nothing yields an
/// empty result, which is a valid partial state, not an error.
pub fn apply_selector<S: Selector>(cube: &CubeState, selector: &S) -> (r: CubeState)
    ensures
        cube_entries(r) == spec_selection(selector, cube_entries(*cube), cube_entries(*cube)),
{
    let mut filtered_cube_state = CubeState::new();
    let n = cube.len();
    let mut i: usize = 0;
    while i < n
        invariant
            i <= n,
            n == cube_entries(*cube).len(),
            cube_entries(filtered_cube_state) == spec_selection(
                selector,
                cube_entries(*cube),
                cube_entries(*cube).take(i as int),
            ),
        decreases n - i,
    {
        let pixel = cube.get(i);
        let xb = selector.select(cube, pixel.0, pixel.1);
        match xb {
            None => {},
            Some(_) => {
                filtered_cube_state.push(pixel);
            },
        }
        proof {
            let whole = cube_entries(*cube);
            assert(whole.take(i + 1).drop_last() =~= whole.take(i as int));
            assert(whole.take(i + 1).last() == whole[i as int]);
        }
        i += 1;
    }
    proof {
        assert(cube_entries(*cube).take(n as int) =~= cube_entries(*cube));
    }
    filtered_cube_state
}

/// A selection keeps only entries of its input, so it never introduces a
/// location outside the domain.
pub proof fn lemma_selection_in_domain<S: Selector>(sel: &S, ctx: Seq<Entry>, s: Seq<Entry>)
    requires
        all_in_domain(s),
    ensures
        all_in_domain(spec_selection(sel, ctx, s)),
    decreases s.len(),
{
    if s.len() != 0 {
        assert(all_in_domain(s.drop_last())) by {
            assert forall|k: int| 0 <= k < s.drop_last().len() implies in_domain(
                (#[trigger] s.drop_last()[k]).0,
            ) by {
                assert(s.drop_last()[k] == s[k]);
            }
        }
        lemma_selection_in_domain(sel, ctx, s.drop_last());
        assert(in_domain(s.last().0));
    }
}

/// A transformer describes how one selected voxel expands into zero or more
/// replacement voxels. Its result need not be a function of the inputs (a
/// random walk is a valid transformer), so the pure description is a relation:
/// `post` says which outputs the transformer may produce.
pub trait Transformer: Sized {
    /// Which output deltas the transformer may emit for one voxel, judged with
    /// `ctx` as context.
    spec fn post(&self, ctx: Seq<Entry>, loc: Location, pixel: PixelState, out: Seq<Entry>) -> bool;

    /// Expands one voxel; the result satisfies `post` and only names valid
    /// locations.
    fn apply(&self, cube: &CubeState, loc: Location, pixel: PixelState) -> (r: CubeState)
        requires
            in_domain(loc),
        ensures
            self.post(cube_entries(*cube), loc, pixel, cube_entries(r)),
            all_in_domain(cube_entries(r)),
    ;
}

/// `out` is a possible result of expanding every entry of `input` in order
/// (each judged with `ctx` as context) and concatenating the emitted deltas.
pub open spec fn transformed<T: Transformer>(
    t: &T,
    ctx: Seq<Entry>,
    input: Seq<Entry>,
    out: Seq<Entry>,
) -> bool
    decreases input.len(),
{
    if input.len() == 0 {
        out.len() == 0
    } else {
        exists|split: int|
            0 <= split <= out.len() && transformed(t, ctx, input.drop_last(), #[trigger] out.take(
                split,
            )) && t.post(ctx, input.last().0, input.last().1, out.skip(split))
    }
}

/// Calls the transformer once per entry of the input (typically a selection
/// result) and concatenates all returned deltas into one delta.
pub fn apply_transformer<T: Transformer>(cube: &CubeState, transformer: &T) -> (r: CubeState)
    requires
        all_in_domain(cube_entries(*cube)),
    ensures
        transformed(transformer, cube_entries(*cube), cube_entries(*cube), cube_entries(r)),
        all_in_domain(cube_entries(r)),
{
    let mut new_cube = CubeState::new();
    let n = cube.len();
    let mut i: usize = 0;
    while i < n
        invariant
            i <= n,
            n == cube_entries(*cube).len(),
            all_in_domain(cube_entries(*cube)),
            all_in_domain(cube_entries(new_cube)),
            transformed(
                transformer,
                cube_entries(*cube),
                cube_entries(*cube).take(i as int),
                cube_entries(new_cube),
            ),
        decreases n - i,
    {
        let ghost acc = cube_entries(new_cube);
        let pixel = cube.get(i);
        let chunk = transformer.apply(cube, pixel.0, pixel.1);
        let m = chunk.len();
        let mut j: usize = 0;
        while j < m
            invariant
                j <= m,
                m == cube_entries(chunk).len(),
                cube_entries(new_cube) == acc + cube_entries(chunk).take(j as int),
            decreases m - j,
        {
            new_cube.push(chunk.get(j));
            proof {
                assert(acc + cube_entries(chunk).take(j + 1) =~= (acc + cube_entries(chunk).take(
                    j as int,
                )).push(cube_entries(chunk)[j as int]));
            }
            j += 1;
        }
        proof {
            let whole = cube_entries(*cube);
            let out = cube_entries(new_cube);
            let ch = cube_entries(chunk);
            assert(out == acc + ch.take(m as int));
            assert(ch.take(m as int) =~= ch);
            assert(out.take(acc.len() as int) =~= acc);
            assert(out.skip(acc.len() as int) =~= ch);
            assert(whole.take(i + 1).drop_last() =~= whole.take(i as int));
            assert(whole.take(i + 1).last() == whole[i as int]);
            assert(all_in_domain(out)) by {
                assert forall|k: int| 0 <= k < out.len() implies in_domain(
                    (#[trigger] out[k]).0,
                ) by {
                    if k < acc.len() {
                        assert(out[k] == acc[k]);
                    } else {
                        assert(out[k] == ch[k - acc.len()]);
                    }
                }
            }
            assert(transformed(
                transformer,
                whole,
                whole.take(i + 1),
                out,
            )) by {
                let split = acc.len() as int;
                assert(0 <= split <= out.len() && transformed(
                    transformer,
                    whole,
                    whole.take(i + 1).drop_last(),
                    out.take(split),
                ) && transformer.post(
                    whole,
                    whole.take(i + 1).last().0,
                    whole.take(i + 1).last().1,
                    out.skip(split),
                ));
            }
        }
        i += 1;
    }
    proof {
        assert(cube_entries(*cube).take(n as int) =~= cube_entries(*cube));
    }
    new_cube
}

/// A location rule says where one voxel moves: to a new location, or nowhere
/// (the voxel vanishes). Like a transformer it may be nondeterministic, so its
/// pure description is the relation `post`.
pub trait LocationTransform: Sized {
    /// Which moves the rule may produce for a voxel at `l`.
    spec fn post(&self, l: Location, r: Option<Location>) -> bool;

    /// Applies the rule; the result satisfies `post` and any new location is
    /// valid.
    fn transform(&self, l: Location) -> (r: Option<Location>)
        requires
            in_domain(l),
        ensures
            self.post(l, r),
            r matches Some(nl) ==> in_domain(nl),
    ;
}

/// Moves a voxel one row up (`y + 1`); at the top row the voxel vanishes
/// instead of wrapping.
pub open spec fn spec_inc_y_to_empty(l: Location) -> Option<Location> {
    if l.y + 1 <= 4 {
        Some(Location { x: l.x, y: (l.y + 1) as usize, z: l.z })
    } else {
        None
    }
}

/// Increment-y, clamp-to-empty: the voxel drifts one row up and evaporates off
/// the top face.
pub fn inc_y_location_transform_to_empty(old_location: Location) -> (r: Option<Location>)
    requires
        in_domain(old_location),
    ensures
        r == spec_inc_y_to_empty(old_location),
{
    let new_y = old_location.y + 1;
    if new_y <= 4 {
        Some(Location { x: old_location.x, y: new_y, z: old_location.z })
    } else {
        None
    }
}

/// Moves a voxel one row up (`y + 1`); at the top row it wraps back down to
/// `(y + 1) % 4`. The modulus is 4 against a domain of size 5, so a wrapped
/// voxel lands on row 1 and row 4 is never a wrap target.
pub open spec fn spec_inc_y_write_over(l: Location) -> Option<Location> {
    if l.y + 1 <= 4 {
        Some(Location { x: l.x, y: (l.y + 1) as usize, z: l.z })
    } else {
        Some(Location { x: l.x, y: ((l.y + 1) % 4) as usize, z: l.z })
    }
}

/// Increment-y, wrap-over: the voxel drifts one row up and wraps near the
/// bottom instead of vanishing.
pub fn inc_y_location_transform_write_over(old_location: Location) -> (r: Option<Location>)
    requires
        in_domain(old_location),
    ensures
        r == spec_inc_y_write_over(old_location),
{
    let new_y = old_location.y + 1;
    if new_y <= 4 {
        Some(Location { x: old_location.x, y: new_y, z: old_location.z })
    } else {
        Some(Location { x: old_location.x, y: new_y % 4, z: old_location.z })
    }
}

/// The increment-y, clamp-to-empty rule as a pluggable location rule.
pub struct IncYToEmpty;

impl LocationTransform for IncYToEmpty {
    open spec fn post(&self, l: Location, r: Option<Location>) -> bool {
        r == spec_inc_y_to_empty(l)
    }

    fn transform(&self, l: Location) -> (r: Option<Location>) {
        inc_y_location_transform_to_empty(l)
    }
}

/// The increment-y, wrap-over rule as a pluggable location rule.
pub struct IncYWriteOver;

impl LocationTransform for IncYWriteOver {
    open spec fn post(&self, l: Location, r: Option<Location>) -> bool {
        r == spec_inc_y_write_over(l)
    }

    fn transform(&self, l: Location) -> (r: Option<Location>) {
        inc_y_location_transform_write_over(l)
    }
}

/// The delta the replace-location transformer emits for one voxel: the source
/// location is always cleared, and when the rule yields a new location the
/// pixel reappears there.
pub open spec fn replace_chunk(loc: Location, pixel: PixelState, moved: Option<Location>) -> Seq<
    Entry,
> {
    match moved {
        Some(nl) => seq![(loc, spec_empty_pixel()), (nl, pixel)],
        None => seq![(loc, spec_empty_pixel())],
    }
}

/// The movement primitive for all animation effects: a transformer built from
/// a location rule, which clears each selected voxel and re-emits its pixel at
/// the location the rule chose, if any.
pub struct ReplaceLocationTransformer<T: LocationTransform> {
    pub rule: T,
}

impl<T: LocationTransform> Transformer for ReplaceLocationTransformer<T> {
    open spec fn post(&self, ctx: Seq<Entry>, loc: Location, pixel: PixelState, out: Seq<Entry>) -> bool {
        exists|moved: Option<Location>|
            {
                &&& #[trigger] self.rule.post(loc, moved)
                &&& (moved matches Some(nl) ==> in_domain(nl))
                &&& out == replace_chunk(loc, pixel, moved)
            }
    }

    fn apply(&self, cube: &CubeState, loc: Location, pixel: PixelState) -> (r: CubeState) {
        let mut out = CubeState::new();
        out.push((loc, empty_pixel()));
        let moved = self.rule.transform(loc);
        match moved {
            Some(new_location) => {
                out.push((new_location, pixel));
            },
            None => {},
        }
        proof {
            assert(cube_entries(out) =~= replace_chunk(loc, pixel, moved));
        }
        out
    }
}

/// Builds the replace-location transformer from a pure location rule: new
/// effects are expressed by supplying a different rule, not by rewriting the
/// transformer.
pub fn transformer_replace_location_generator<T: LocationTransform>(location_fn: T) -> (r:
    ReplaceLocationTransformer<T>)
    ensures
        r.rule == location_fn,
{
    ReplaceLocationTransformer { rule: location_fn }
}

/// Selects a voxel exactly when its brightness is positive.
pub struct BrightSelector;

impl Selector for BrightSelector {
    open spec fn spec_select(&self, cube: Seq<Entry>, loc: Location, pixel: PixelState) -> Option<
        Location,
    > {
        if pixel.bright > 0 {
            Some(loc)
        } else {
            None
        }
    }

    fn select(&self, cube: &CubeState, loc: Location, pixel: PixelState) -> (r: Option<Location>) {
        if pixel.bright > 0 {
            Some(loc)
        } else {
            None
        }
    }
}

/// Selects every voxel: the filtered view is the whole cube.
pub struct AcceptAllSelector;

impl Selector for AcceptAllSelector {
    open spec fn spec_select(&self, cube: Seq<Entry>, loc: Location, pixel: PixelState) -> Option<
        Location,
    > {
        Some(loc)
    }

    fn select(&self, cube: &CubeState, loc: Location, pixel: PixelState) -> (r: Option<Location>) {
        Some(loc)
    }
}

/// Selects exactly the voxel at one target location.
pub struct LocationSelector {
    pub target: Location,
}

impl Selector for LocationSelector {
    open spec fn spec_select(&self, cube: Seq<Entry>, loc: Location, pixel: PixelState) -> Option<
        Location,
    > {
        if loc == self.target {
            Some(loc)
        } else {
            None
        }
    }

    fn select(&self, cube: &CubeState, loc: Location, pixel: PixelState) -> (r: Option<Location>) {
        if loc == self.target {
            Some(loc)
        } else {
            None
        }
    }
}

/// Evaluates a selector on one voxel.
pub fn selector<S: Selector>(
    selector_fn: &S,
    cube: &CubeState,
    loc: Location,
    state: PixelState,
) -> (r: Option<Location>)
    ensures
        r == selector_fn.spec_select(cube_entries(*cube), loc, state),
{
    selector_fn.select(cube, loc, state)
}

/// Expands one voxel through a transformer.
pub fn generic_cube_transformer<F: Transformer>(
    transformer_fn: &F,
    init_cube: &CubeState,
    loc: Location,
    state: PixelState,
) -> (r: CubeState)
    requires
        in_domain(loc),
    ensures
        transformer_fn.post(cube_entries(*init_cube), loc, state, cube_entries(r)),
        all_in_domain(cube_entries(r)),
{
    transformer_fn.apply(init_cube, loc, state)
}

/// Expands one voxel through the replace-location transformer built from a
/// location rule.
pub fn location_cube_transformer<T: LocationTransform>(
    init_cube: &CubeState,
    loc: Location,
    state: PixelState,
    location_fn: T,
) -> (r: CubeState)
    requires
        in_domain(loc),
    ensures
        (ReplaceLocationTransformer { rule: location_fn }).post(
            cube_entries(*init_cube),
            loc,
            state,
            cube_entries(r),
        ),
        all_in_domain(cube_entries(r)),
{
    let t = ReplaceLocationTransformer { rule: location_fn };
    t.apply(init_cube, loc, state)
}

/// Applies a location rule to one location.
pub fn location_transformer<F: LocationTransform>(location_fn: &F, loc: Location) -> (r: Option<
    Location,
>)
    requires
        in_domain(loc),
    ensures
        location_fn.post(loc, r),
        r matches Some(nl) ==> in_domain(nl),
{
    location_fn.transform(loc)
}

} // verus!
