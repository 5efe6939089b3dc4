use vstd::prelude::*;

use crate::cube::{
    all_in_domain, base_pixel, canon_index, cube_entries, delta_last, empty_cube, full_canonical,
    has_loc, is_first_match, light_rel, replace, CubeState, Entry,
};
use crate::engine::{
    apply_selector, apply_transformer, lemma_selection_in_domain, spec_selection, transformed,
    Selector, Transformer,
};
use crate::geometry::{in_domain, Location};

verus! {

/// Anything that accepts a delta of pending pixel writes and folds it into an
/// authoritative cube, initializing the cube to all-empty on first use.
pub trait CubeLight: Sized {
    /// The entries of the authoritative cube.
    spec fn lit_view(&self) -> Seq<Entry>;

    /// The authoritative cube is either still uninitialized (no entries) or
    /// fully populated in canonical form.
    spec fn lit_wf(&self) -> bool;

    /// Folds a delta into the authoritative cube, entry by entry, the last
    /// write to a location winning.
    fn light(&mut self, cube: CubeState)
        requires
            old(self).lit_wf(),
            all_in_domain(cube_entries(cube)),
        ensures
            final(self).lit_wf(),
            light_rel(old(self).lit_view(), cube_entries(cube), final(self).lit_view()),
    ;
}

/// The single long-lived owner of the authoritative cube state; everything
/// else in the pipeline is a transient value.
pub struct ConsoleDriver {
    pub state: CubeState,
}

impl ConsoleDriver {
    /// The driver's cube is either still uninitialized (no entries) or a full
    /// canonical cube.
    pub open spec fn wf(&self) -> bool {
        cube_entries(self.state).len() == 0 || full_canonical(cube_entries(self.state))
    }

    /// A fresh driver with an uninitialized cube.
    pub fn init() -> (r: ConsoleDriver)
        ensures
            r.wf(),
            cube_entries(r.state).len() == 0,
    {
        ConsoleDriver { state: CubeState::new() }
    }

    /// The filtered view of the authoritative cube under a selector; used by
    /// external renderers to know what to draw.
    pub fn select<S: Selector>(&self, selector: &S) -> (r: CubeState)
        ensures
            cube_entries(r) == spec_selection(
                selector,
                cube_entries(self.state),
                cube_entries(self.state),
            ),
    {
        apply_selector(&self.state, selector)
    }

    /// One full read-transform-write cycle: select matching voxels from the
    /// authoritative cube, expand each into a delta, and commit the delta via
    /// the light path.
    pub fn updater<S: Selector, T: Transformer>(&mut self, selector: &S, transformer: &T)
        requires
            old(self).wf(),
        ensures
            final(self).wf(),
            ({
                let sel_seq = spec_selection(
                    selector,
                    cube_entries(old(self).state),
                    cube_entries(old(self).state),
                );
                exists|delta: Seq<Entry>|
                    #[trigger] transformed(transformer, sel_seq, sel_seq, delta) && light_rel(
                        cube_entries(old(self).state),
                        delta,
                        cube_entries(final(self).state),
                    )
            }),
    {
        proof {
            assert(all_in_domain(cube_entries(self.state))) by {
                if cube_entries(self.state).len() != 0 {
                    assert(full_canonical(cube_entries(self.state)));
                }
            }
            lemma_selection_in_domain(
                selector,
                cube_entries(self.state),
                cube_entries(self.state),
            );
        }
        let selection = self.select(selector);
        let new_cube = apply_transformer(&selection, transformer);
        self.light(new_cube);
    }
}

impl CubeLight for ConsoleDriver {
    open spec fn lit_view(&self) -> Seq<Entry> {
        cube_entries(self.state)
    }

    open spec fn lit_wf(&self) -> bool {
        self.wf()
    }

    fn light(&mut self, cube: CubeState) {
        let ghost base = cube_entries(old(self).state);
        let ghost delta = cube_entries(cube);
        if self.state.len() == 0 {
            self.state = empty_cube();
        }
        proof {
            assert(full_canonical(cube_entries(self.state)));
            assert forall|l: Location| in_domain(l) implies cube_entries(
                self.state,
            )[#[trigger] canon_index(l)].1 == base_pixel(base, l) by {
                assert(0 <= canon_index(l) < 125);
            }
        }
        let n = cube.len();
        let mut i: usize = 0;
        while i < n
            invariant
                i <= n,
                n == delta.len(),
                delta == cube_entries(cube),
                all_in_domain(delta),
                full_canonical(cube_entries(self.state)),
                forall|l: Location|
                    in_domain(l) ==> cube_entries(self.state)[#[trigger] canon_index(l)].1 == (
                    match delta_last(delta.take(i as int), l) {
                        Some(p) => p,
                        None => base_pixel(base, l),
                    }),
            decreases n - i,
        {
            let ghost s_prev = cube_entries(self.state);
            let e = cube.get(i);
            proof {
                assert(in_domain(e.0));
                assert(s_prev[canon_index(e.0)].0 == e.0);
                assert(has_loc(s_prev, e.0));
            }
            let ns = replace(&self.state, e);
            let ghost s_new = cube_entries(ns);
            proof {
                let i0 = choose|i0: int|
                    is_first_match(s_prev, e.0, i0) && s_new == s_prev.update(i0, e);
                assert(canon_index(s_prev[i0].0) == i0);
                assert(i0 == canon_index(e.0));
                assert(full_canonical(s_new)) by {
                    assert forall|l: Location| in_domain(l) implies s_new[#[trigger] canon_index(
                        l,
                    )].0 == l by {
                        if canon_index(l) != i0 {
                            assert(s_new[canon_index(l)] == s_prev[canon_index(l)]);
                        }
                    }
                    assert forall|k: int| 0 <= k < 125 implies in_domain((#[trigger] s_new[k]).0)
                        && canon_index(s_new[k].0) == k by {
                        if k != i0 {
                            assert(s_new[k] == s_prev[k]);
                        }
                    }
                }
                assert forall|l: Location| in_domain(l) implies s_new[#[trigger] canon_index(
                    l,
                )].1 == (match delta_last(delta.take(i + 1), l) {
                    Some(p) => p,
                    None => base_pixel(base, l),
                }) by {
                    assert(delta.take(i + 1).drop_last() =~= delta.take(i as int));
                    assert(delta.take(i + 1).last() == delta[i as int]);
                    if l == e.0 {
                        assert(s_new[canon_index(l)].1 == e.1);
                    } else {
                        assert(canon_index(l) != i0) by {
                            if canon_index(l) == i0 {
                                assert(s_prev[canon_index(l)].0 == l);
                            }
                        }
                        assert(s_new[canon_index(l)] == s_prev[canon_index(l)]);
                    }
                }
            }
            self.state = ns;
            i += 1;
        }
        proof {
            assert(delta.take(n as int) =~= delta);
        }
    }
}

} // verus!
