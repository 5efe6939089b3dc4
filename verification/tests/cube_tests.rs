use cube_light::cube::{empty_cube, find_location_index, plane, replace, CubeState};
use cube_light::driver::{ConsoleDriver, CubeLight};
use cube_light::engine::{
    apply_selector, inc_y_location_transform_to_empty, inc_y_location_transform_write_over,
    transformer_replace_location_generator, AcceptAllSelector, BrightSelector, IncYToEmpty,
    LocationSelector,
};
use cube_light::geometry::{to_range, Location};
use cube_light::pixel::{convert_state_to_simple, empty_pixel, Color, PixelState};
use cube_light::walker::{plus_minus_1, random_walker_transform_write_over, step_coord, RandomWalker};

fn lit(bright: u8) -> PixelState {
    PixelState { color: Color { r: 0, g: 0, b: 0 }, bright }
}

fn loc(x: usize, y: usize, z: usize) -> Location {
    Location { x, y, z }
}

fn single_delta(l: Location, p: PixelState) -> CubeState {
    let mut d = CubeState::new();
    d.push((l, p));
    d
}

fn bright_count(c: &CubeState) -> usize {
    let mut n = 0;
    for i in 0..c.len() {
        if c.get(i).1.bright > 0 {
            n += 1;
        }
    }
    n
}

fn pixel_at(c: &CubeState, l: Location) -> PixelState {
    for i in 0..c.len() {
        if c.get(i).0 == l {
            return c.get(i).1;
        }
    }
    panic!("location not present");
}

#[test]
fn single_write_then_select_target() {
    let mut driver = ConsoleDriver::init();
    let p = lit(7);
    let l = loc(1, 2, 3);
    driver.light(single_delta(l, p));
    assert_eq!(driver.state.len(), 125);
    let selected = driver.select(&LocationSelector { target: l });
    assert_eq!(selected.len(), 1);
    assert_eq!(selected.get(0).0, l);
    assert_eq!(selected.get(0).1, p);
    // every other location still shows the empty pixel
    for i in 0..driver.state.len() {
        let e = driver.state.get(i);
        if e.0 != l {
            assert_eq!(e.1, empty_pixel());
        }
    }
}

#[test]
fn light_is_idempotent() {
    let mut delta = CubeState::new();
    delta.push((loc(0, 0, 0), lit(10)));
    delta.push((loc(4, 4, 4), lit(20)));
    // a second write to the same location: the last one wins
    delta.push((loc(0, 0, 0), lit(30)));

    let mut delta2 = CubeState::new();
    delta2.push((loc(0, 0, 0), lit(10)));
    delta2.push((loc(4, 4, 4), lit(20)));
    delta2.push((loc(0, 0, 0), lit(30)));

    let mut once = ConsoleDriver::init();
    once.light(delta);
    let mut twice = ConsoleDriver::init();
    twice.light(delta2);
    let mut delta3 = CubeState::new();
    delta3.push((loc(0, 0, 0), lit(10)));
    delta3.push((loc(4, 4, 4), lit(20)));
    delta3.push((loc(0, 0, 0), lit(30)));
    twice.light(delta3);

    assert_eq!(once.state.len(), 125);
    assert_eq!(twice.state.len(), 125);
    for i in 0..125 {
        assert_eq!(once.state.get(i), twice.state.get(i));
    }
    assert_eq!(pixel_at(&once.state, loc(0, 0, 0)), lit(30));
}

#[test]
fn replace_preserves_entry_count() {
    let full = empty_cube();
    assert_eq!(full.len(), 125);
    let replaced = replace(&full, (loc(3, 1, 4), lit(99)));
    assert_eq!(replaced.len(), 125);
    // exactly the one entry changed
    let mut changed = 0;
    for i in 0..125 {
        if replaced.get(i) != full.get(i) {
            changed += 1;
            assert_eq!(replaced.get(i).0, loc(3, 1, 4));
            assert_eq!(replaced.get(i).1, lit(99));
        }
    }
    assert_eq!(changed, 1);
}

#[test]
fn updater_removes_voxel_at_top_row() {
    let mut driver = ConsoleDriver::init();
    driver.light(single_delta(loc(2, 4, 2), lit(255)));
    let t = transformer_replace_location_generator(IncYToEmpty);
    driver.updater(&BrightSelector, &t);
    assert_eq!(bright_count(&driver.state), 0);
}

#[test]
fn updater_moves_voxel_up_one_row() {
    let mut driver = ConsoleDriver::init();
    driver.light(single_delta(loc(0, 0, 0), lit(255)));
    let t = transformer_replace_location_generator(IncYToEmpty);
    driver.updater(&BrightSelector, &t);
    assert_eq!(bright_count(&driver.state), 1);
    assert_eq!(pixel_at(&driver.state, loc(0, 1, 0)), lit(255));
    assert_eq!(pixel_at(&driver.state, loc(0, 0, 0)), empty_pixel());
}

#[test]
fn select_all_round_trip() {
    let mut driver = ConsoleDriver::init();
    driver.light(single_delta(loc(1, 1, 1), lit(5)));
    let all = driver.select(&AcceptAllSelector);
    assert_eq!(all.len(), driver.state.len());
    for i in 0..all.len() {
        assert_eq!(all.get(i), driver.state.get(i));
    }
}

#[test]
fn full_plane_has_125_unique_in_domain_locations() {
    let full = plane([0, 5], [0, 5], [0, 5], lit(1));
    assert_eq!(full.len(), 125);
    for i in 0..125 {
        let l = full.get(i).0;
        assert!(l.x < 5 && l.y < 5 && l.z < 5);
        for j in 0..i {
            assert_ne!(full.get(j).0, l);
        }
    }
}

#[test]
fn scenario_single_voxel_drifts_up() {
    let mut driver = ConsoleDriver::init();
    driver.light(single_delta(loc(2, 2, 2), lit(255)));
    let selected = driver.select(&BrightSelector);
    assert_eq!(selected.len(), 1);
    assert_eq!(selected.get(0).0, loc(2, 2, 2));
    assert_eq!(selected.get(0).1.bright, 255);
    let t = transformer_replace_location_generator(IncYToEmpty);
    driver.updater(&BrightSelector, &t);
    assert_eq!(bright_count(&driver.state), 1);
    assert_eq!(pixel_at(&driver.state, loc(2, 3, 2)).bright, 255);
    assert_eq!(pixel_at(&driver.state, loc(2, 2, 2)), empty_pixel());
}

#[test]
fn inc_y_to_empty_steps_and_clamps() {
    assert_eq!(inc_y_location_transform_to_empty(loc(0, 0, 3)), Some(loc(0, 1, 3)));
    assert_eq!(inc_y_location_transform_to_empty(loc(2, 3, 1)), Some(loc(2, 4, 1)));
    assert_eq!(inc_y_location_transform_to_empty(loc(1, 4, 1)), None);
}

#[test]
fn inc_y_write_over_steps_and_wraps() {
    assert_eq!(inc_y_location_transform_write_over(loc(0, 3, 0)), Some(loc(0, 4, 0)));
    // at the top row the wrap uses modulus 4, so the voxel lands on row 1
    assert_eq!(inc_y_location_transform_write_over(loc(0, 4, 0)), Some(loc(0, 1, 0)));
}

#[test]
fn plus_minus_1_stays_adjacent_and_in_domain() {
    for _ in 0..100 {
        match plus_minus_1(0) {
            Some(m) => assert_eq!(m, 1),
            None => {},
        }
        match plus_minus_1(4) {
            Some(m) => assert_eq!(m, 3),
            None => {},
        }
        let m = plus_minus_1(2).expect("an interior coordinate always steps");
        assert!(m == 1 || m == 3);
    }
}

#[test]
fn random_walker_steps_one_axis_by_one() {
    for _ in 0..100 {
        for &start in &[loc(0, 0, 0), loc(4, 4, 4), loc(2, 2, 2), loc(0, 4, 2)] {
            if let Some(nl) = random_walker_transform_write_over(start) {
                assert!(nl.x < 5 && nl.y < 5 && nl.z < 5);
                let dx = start.x.abs_diff(nl.x);
                let dy = start.y.abs_diff(nl.y);
                let dz = start.z.abs_diff(nl.z);
                assert_eq!(dx + dy + dz, 1);
            }
        }
        // from the centre every step succeeds
        assert!(random_walker_transform_write_over(loc(2, 2, 2)).is_some());
    }
}

#[test]
fn random_walk_updater_keeps_one_voxel() {
    let mut driver = ConsoleDriver::init();
    driver.light(single_delta(loc(2, 2, 2), lit(255)));
    let t = transformer_replace_location_generator(RandomWalker);
    driver.updater(&BrightSelector, &t);
    assert_eq!(bright_count(&driver.state), 1);
    let selected = driver.select(&BrightSelector);
    let nl = selected.get(0).0;
    let d = nl.x.abs_diff(2) + nl.y.abs_diff(2) + nl.z.abs_diff(2);
    assert_eq!(d, 1);
}

#[test]
fn gen_planes_cover_one_slice_each() {
    let py = cube_light::cube::gen_plane_y(0, lit(1));
    assert_eq!(py.len(), 25);
    for i in 0..25 {
        // iterated row 0 is stored as the top row, y == 4
        assert_eq!(py.get(i).0.y, 4);
    }
    let px = cube_light::cube::gen_plane_x(2, lit(1));
    assert_eq!(px.len(), 25);
    for i in 0..25 {
        assert_eq!(px.get(i).0.x, 2);
    }
    let pz = cube_light::cube::gen_plane_z(3, lit(1));
    assert_eq!(pz.len(), 25);
    for i in 0..25 {
        assert_eq!(pz.get(i).0.z, 3);
    }
}

#[test]
fn to_range_is_unit_range() {
    assert_eq!(to_range(3), [3, 4]);
    assert_eq!(to_range(0), [0, 1]);
}

#[test]
fn empty_pixel_is_dark() {
    let e = empty_pixel();
    assert_eq!(e.bright, 0);
    assert_eq!((e.color.r, e.color.g, e.color.b), (0, 0, 0));
    assert!(!convert_state_to_simple(&e));
    assert!(convert_state_to_simple(&lit(1)));
}

#[test]
fn find_location_index_returns_first_match() {
    let mut c = CubeState::new();
    c.push((loc(0, 0, 0), lit(1)));
    c.push((loc(1, 0, 0), lit(2)));
    c.push((loc(1, 0, 0), lit(3)));
    assert_eq!(find_location_index(&c, loc(1, 0, 0)), 1);
    assert_eq!(find_location_index(&c, loc(0, 0, 0)), 0);
}

#[test]
fn empty_delta_initializes_full_empty_cube() {
    let mut driver = ConsoleDriver::init();
    assert_eq!(driver.state.len(), 0);
    driver.light(CubeState::new());
    assert_eq!(driver.state.len(), 125);
    for i in 0..125 {
        assert_eq!(driver.state.get(i).1, empty_pixel());
    }
}

#[test]
fn selector_matching_nothing_yields_empty_state() {
    let mut driver = ConsoleDriver::init();
    driver.light(CubeState::new());
    let selected = apply_selector(&driver.state, &BrightSelector);
    assert_eq!(selected.len(), 0);
}

#[test]
fn forwarders_delegate_to_their_traits() {
    let cube = empty_cube();
    let sel_result = cube_light::engine::selector(&BrightSelector, &cube, loc(0, 0, 0), lit(5));
    assert_eq!(sel_result, Some(loc(0, 0, 0)));
    let none = cube_light::engine::selector(&BrightSelector, &cube, loc(0, 0, 0), empty_pixel());
    assert_eq!(none, None);
    let lt = cube_light::engine::location_transformer(&IncYToEmpty, loc(1, 1, 1));
    assert_eq!(lt, Some(loc(1, 2, 1)));
    let chunk = cube_light::engine::location_cube_transformer(&cube, loc(1, 1, 1), lit(9), IncYToEmpty);
    assert_eq!(chunk.len(), 2);
    assert_eq!(chunk.get(0), (loc(1, 1, 1), empty_pixel()));
    assert_eq!(chunk.get(1), (loc(1, 2, 1), lit(9)));
    let t = transformer_replace_location_generator(IncYToEmpty);
    let chunk2 = cube_light::engine::generic_cube_transformer(&t, &cube, loc(1, 4, 1), lit(9));
    assert_eq!(chunk2.len(), 1);
    assert_eq!(chunk2.get(0), (loc(1, 4, 1), empty_pixel()));
}

#[test]
fn apply_transformer_concatenates_chunks_in_order() {
    let mut sel = CubeState::new();
    sel.push((loc(0, 0, 0), lit(1)));
    sel.push((loc(0, 4, 0), lit(2)));
    let t = transformer_replace_location_generator(IncYToEmpty);
    let delta = cube_light::engine::apply_transformer(&sel, &t);
    assert_eq!(delta.len(), 3);
    assert_eq!(delta.get(0), (loc(0, 0, 0), empty_pixel()));
    assert_eq!(delta.get(1), (loc(0, 1, 0), lit(1)));
    assert_eq!(delta.get(2), (loc(0, 4, 0), empty_pixel()));
}

#[test]
fn step_coord_moves_one_unit_or_rejects() {
    assert_eq!(step_coord(2, true), Some(3));
    assert_eq!(step_coord(2, false), Some(1));
    assert_eq!(step_coord(4, true), None);
    assert_eq!(step_coord(0, false), None);
    assert_eq!(step_coord(4, false), Some(3));
    assert_eq!(step_coord(0, true), Some(1));
}
