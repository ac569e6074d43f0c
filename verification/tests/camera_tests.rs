use gridcore::camera::{follow, smooth_axis, tile_target, RenderPos};
use gridcore::grid::GridLocation;

#[test]
fn tile_target_scales_by_tile_size_and_subpixels() {
    let t = tile_target(GridLocation(1, -2));
    assert_eq!(t.x, 16000);
    assert_eq!(t.y, -32000);
    let origin = tile_target(GridLocation(0, 0));
    assert_eq!(origin.x, 0);
    assert_eq!(origin.y, 0);
}

#[test]
fn smoothing_halves_the_distance_with_one_half_fraction() {
    // One tick with k*dt = 1/2 from 0 toward 16000 covers 8000.
    assert_eq!(smooth_axis(0, 16000, 1, 2), 8000);
    assert_eq!(smooth_axis(8000, 16000, 1, 2), 12000);
    assert_eq!(smooth_axis(12000, 16000, 1, 2), 14000);
}

#[test]
fn smoothing_rounds_away_from_zero_and_reaches_the_target() {
    // With the step rounded away from zero the rendered position makes
    // progress even at distance one, from either side.
    assert_eq!(smooth_axis(15999, 16000, 1, 1000), 16000);
    assert_eq!(smooth_axis(16001, 16000, 1, 1000), 16000);
    assert_eq!(smooth_axis(16000, 16000, 1, 2), 16000);
}

#[test]
fn distance_strictly_decreases_every_tick_until_the_target() {
    // Stationary target, k*dt = 83/1000 (decay 5 at dt = 1/60).
    let target = 16000i64;
    let mut rendered = 0i64;
    let mut last_distance = target - rendered;
    let mut ticks = 0u32;
    while rendered != target {
        rendered = smooth_axis(rendered, target, 83, 1000);
        let distance = (target - rendered).abs();
        assert!(distance < last_distance);
        last_distance = distance;
        ticks += 1;
        assert!(ticks < 20000);
    }
    assert_eq!(rendered, target);
}

#[test]
fn smoothing_converges_from_above_too() {
    let target = -4000i64;
    let mut rendered = 20000i64;
    let mut guard = 0u32;
    while rendered != target {
        let next = smooth_axis(rendered, target, 250, 1000);
        assert!((target - next).abs() < (target - rendered).abs());
        assert!(next >= target);
        rendered = next;
        guard += 1;
        assert!(guard < 10000);
    }
}

#[test]
fn follow_smooths_both_axes_toward_the_grid_target() {
    let rendered = RenderPos { x: 0, y: 0 };
    let stepped = follow(rendered, GridLocation(1, 1), 1, 2);
    assert_eq!(stepped.x, 8000);
    assert_eq!(stepped.y, 8000);
    let again = follow(stepped, GridLocation(1, 1), 1, 2);
    assert_eq!(again.x, 12000);
    assert_eq!(again.y, 12000);
}
