use vstd::prelude::*;

use crate::cube::{canon_index, delta_last, full_canonical, has_loc, light_rel, Entry};
use crate::engine::{
    replace_chunk, spec_inc_y_to_empty, spec_selection, transformed, AcceptAllSelector,
    BrightSelector, IncYToEmpty, LocationSelector, LocationTransform, ReplaceLocationTransformer, Selector,
    Transformer,
};
use crate::geometry::{in_domain, Location};
use crate::pixel::{spec_empty_pixel, PixelState};

verus! {

/// A selector that accepts no entry of `s` selects nothing.
pub proof fn lemma_selection_none<S: Selector>(sel: &S, ctx: Seq<Entry>, s: Seq<Entry>)
    requires
        forall|k: int|
            0 <= k < s.len() ==> (#[trigger] sel.spec_select(ctx, s[k].0, s[k].1)) is None,
    ensures
        spec_selection(sel, ctx, s).len() == 0,
    decreases s.len(),
{
    if s.len() != 0 {
        assert forall|k: int| 0 <= k < s.drop_last().len() implies (#[trigger] sel.spec_select(
            ctx,
            s.drop_last()[k].0,
            s.drop_last()[k].1,
        )) is None by {
            assert(s.drop_last()[k] == s[k]);
        }
        lemma_selection_none(sel, ctx, s.drop_last());
        assert(sel.spec_select(ctx, s[s.len() - 1].0, s[s.len() - 1].1) is None);
    }
}

/// A selector that accepts exactly the entry at position `j` selects exactly
/// that entry.
pub proof fn lemma_selection_single<S: Selector>(sel: &S, ctx: Seq<Entry>, s: Seq<Entry>, j: int)
    requires
        0 <= j < s.len(),
        forall|k: int|
            0 <= k < s.len() ==> ((#[trigger] sel.spec_select(ctx, s[k].0, s[k].1)) is Some <==> k
                == j),
    ensures
        spec_selection(sel, ctx, s) == seq![s[j]],
    decreases s.len(),
{
    if j == s.len() - 1 {
        assert forall|k: int| 0 <= k < s.drop_last().len() implies (#[trigger] sel.spec_select(
            ctx,
            s.drop_last()[k].0,
            s.drop_last()[k].1,
        )) is None by {
            assert(s.drop_last()[k] == s[k]);
        }
        lemma_selection_none(sel, ctx, s.drop_last());
        assert(sel.spec_select(ctx, s[j].0, s[j].1) is Some);
        assert(spec_selection(sel, ctx, s) =~= seq![s[j]]);
    } else {
        assert forall|k: int| 0 <= k < s.drop_last().len() implies ((
        #[trigger] sel.spec_select(ctx, s.drop_last()[k].0, s.drop_last()[k].1)) is Some <==> k
            == j) by {
            assert(s.drop_last()[k] == s[k]);
        }
        lemma_selection_single(sel, ctx, s.drop_last(), j);
        assert(s.drop_last()[j] == s[j]);
        assert(sel.spec_select(ctx, s[s.len() - 1].0, s[s.len() - 1].1) is None);
    }
}

/// Round trip: the accept-all selector yields its whole input unchanged.
pub proof fn lemma_selection_all(ctx: Seq<Entry>, s: Seq<Entry>)
    ensures
        spec_selection(&AcceptAllSelector, ctx, s) == s,
    decreases s.len(),
{
    if s.len() != 0 {
        lemma_selection_all(ctx, s.drop_last());
        assert(spec_selection(&AcceptAllSelector, ctx, s) =~= s);
    }
}

/// A full canonical cube holds exactly 125 entries: their locations are
/// pairwise distinct, all inside the domain, and every valid location occurs.
pub proof fn lemma_full_cube_locations(s: Seq<Entry>)
    requires
        full_canonical(s),
    ensures
        s.len() == 125,
        forall|j: int, k: int|
            0 <= j < k < 125 ==> (#[trigger] s[j]).0 != (#[trigger] s[k]).0,
        forall|k: int| 0 <= k < 125 ==> in_domain((#[trigger] s[k]).0),
        forall|l: Location| in_domain(l) ==> has_loc(s, l),
{
    assert forall|l: Location| in_domain(l) implies has_loc(s, l) by {
        assert(s[canon_index(l)].0 == l);
        assert(0 <= canon_index(l) < 125);
    }
}

/// Lighting a single write `(l, p)` on a freshly initialized cube leaves `p`
/// at `l` and the empty pixel at the other 124 locations, and selecting for
/// `l` yields exactly that one entry.
pub proof fn lemma_light_single_then_select(l: Location, p: PixelState, s1: Seq<Entry>)
    requires
        in_domain(l),
        light_rel(Seq::<Entry>::empty(), seq![(l, p)], s1),
    ensures
        s1[canon_index(l)] == (l, p),
        forall|l2: Location|
            in_domain(l2) && l2 != l ==> s1[#[trigger] canon_index(l2)] == (
                l2,
                spec_empty_pixel(),
            ),
        spec_selection(&LocationSelector { target: l }, s1, s1) == seq![(l, p)],
{
    let delta = seq![(l, p)];
    assert(delta.last() == (l, p));
    assert forall|l2: Location| in_domain(l2) && l2 != l implies s1[#[trigger] canon_index(l2)]
        == (l2, spec_empty_pixel()) by {
        assert(delta.drop_last() =~= Seq::<Entry>::empty());
        assert(delta_last(delta.drop_last(), l2) == None::<PixelState>);
        assert(delta_last(delta, l2) == None::<PixelState>);
    }
    let sel = LocationSelector { target: l };
    assert forall|k: int| 0 <= k < s1.len() implies ((#[trigger] sel.spec_select(
        s1,
        s1[k].0,
        s1[k].1,
    )) is Some <==> k == canon_index(l)) by {
        assert(canon_index(s1[k].0) == k);
        if s1[k].0 == l {
            assert(k == canon_index(l));
        }
    }
    lemma_selection_single(&sel, s1, s1, canon_index(l));
}

/// Idempotence: folding the same delta into the cube twice yields the same
/// authoritative state as folding it once.
pub proof fn lemma_light_idempotent(
    base: Seq<Entry>,
    delta: Seq<Entry>,
    once: Seq<Entry>,
    twice: Seq<Entry>,
)
    requires
        light_rel(base, delta, once),
        light_rel(once, delta, twice),
    ensures
        twice == once,
{
    assert forall|k: int| 0 <= k < 125 implies twice[k] == once[k] by {
        let l = once[k].0;
        assert(canon_index(l) == k);
        assert(once[canon_index(twice[k].0)].0 == twice[k].0);
        assert(twice[k].0 == l);
        assert(once.len() != 0);
    }
    assert(twice =~= once);
}

/// Selector / transformer composition: one updater cycle with the brightness
/// selector and the increment-y clamp-to-empty rule, on a cube with a single
/// lit voxel. At the top row the voxel is removed and the cube goes all
/// empty; anywhere else the voxel reappears one row up, its origin clears,
/// and everything else stays empty.
pub proof fn lemma_updater_inc_y(
    l: Location,
    s0: Seq<Entry>,
    delta: Seq<Entry>,
    s1: Seq<Entry>,
    t: ReplaceLocationTransformer<IncYToEmpty>,
)
    requires
        in_domain(l),
        full_canonical(s0),
        s0[canon_index(l)].1.bright > 0,
        forall|l2: Location|
            in_domain(l2) && l2 != l ==> s0[#[trigger] canon_index(l2)].1 == spec_empty_pixel(),
        transformed(
            &t,
            spec_selection(&BrightSelector, s0, s0),
            spec_selection(&BrightSelector, s0, s0),
            delta,
        ),
        light_rel(s0, delta, s1),
    ensures
        l.y == 4 ==> forall|l2: Location|
            in_domain(l2) ==> s1[#[trigger] canon_index(l2)].1 == spec_empty_pixel(),
        l.y < 4 ==> ({
            let nl = Location { x: l.x, y: (l.y + 1) as usize, z: l.z };
            &&& s1[canon_index(nl)].1 == s0[canon_index(l)].1
            &&& s1[canon_index(l)].1 == spec_empty_pixel()
            &&& forall|l2: Location|
                in_domain(l2) && l2 != l && l2 != nl ==> s1[#[trigger] canon_index(l2)].1
                    == spec_empty_pixel()
        }),
{
    let q = s0[canon_index(l)].1;
    let sel = BrightSelector;
    assert forall|k: int| 0 <= k < s0.len() implies ((#[trigger] sel.spec_select(
        s0,
        s0[k].0,
        s0[k].1,
    )) is Some <==> k == canon_index(l)) by {
        assert(canon_index(s0[k].0) == k);
        assert(in_domain(s0[k].0));
        if k != canon_index(l) {
            assert(s0[k].0 != l);
            assert(s0[canon_index(s0[k].0)].1 == spec_empty_pixel());
        }
    }
    lemma_selection_single(&sel, s0, s0, canon_index(l));
    let sel_seq = spec_selection(&BrightSelector, s0, s0);
    assert(sel_seq == seq![(l, q)]) by {
        assert(s0[canon_index(l)].0 == l);
    }
    assert(sel_seq.len() == 1);
    let split = choose|split: int|
        0 <= split <= delta.len() && transformed(
            &t,
            sel_seq,
            sel_seq.drop_last(),
            #[trigger] delta.take(split),
        ) && t.post(sel_seq, sel_seq.last().0, sel_seq.last().1, delta.skip(split));
    assert(sel_seq.drop_last().len() == 0);
    assert(delta.take(split).len() == 0);
    assert(split == 0);
    assert(delta.skip(0) =~= delta);
    assert(sel_seq.last() == (l, q));
    let moved = choose|moved: Option<Location>|
        {
            &&& #[trigger] t.rule.post(l, moved)
            &&& (moved matches Some(nl) ==> in_domain(nl))
            &&& delta == replace_chunk(l, q, moved)
        };
    assert(moved == spec_inc_y_to_empty(l));
    if l.y == 4 {
        assert(delta =~= seq![(l, spec_empty_pixel())]);
        assert forall|l2: Location| in_domain(l2) implies s1[#[trigger] canon_index(l2)].1
            == spec_empty_pixel() by {
            if l2 != l {
                assert(delta.drop_last() =~= Seq::<Entry>::empty());
                assert(delta_last(delta.drop_last(), l2) == None::<PixelState>);
                assert(delta_last(delta, l2) == None::<PixelState>);
            }
        }
    } else {
        let nl = Location { x: l.x, y: (l.y + 1) as usize, z: l.z };
        assert(delta =~= seq![(l, spec_empty_pixel()), (nl, q)]);
        assert(nl != l);
        assert(delta.drop_last() =~= seq![(l, spec_empty_pixel())]);
        assert(s1[canon_index(nl)].1 == q);
        assert(delta_last(delta.drop_last(), l) == Some(spec_empty_pixel()));
        assert(delta_last(delta, l) == Some(spec_empty_pixel()));
        assert(s1[canon_index(l)].1 == spec_empty_pixel());
        assert forall|l2: Location| in_domain(l2) && l2 != l && l2 != nl implies s1[
        #[trigger] canon_index(l2)].1 == spec_empty_pixel() by {
            assert(delta.drop_last().drop_last() =~= Seq::<Entry>::empty());
            assert(delta_last(delta.drop_last().drop_last(), l2) == None::<PixelState>);
            assert(delta_last(delta.drop_last(), l2) == None::<PixelState>);
            assert(delta_last(delta, l2) == None::<PixelState>);
        }
    }
}

} // verus!
