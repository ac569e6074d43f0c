use gridcore::grid::player_start;
use gridcore::terrain::generate;
use gridcore::GridLocation;

#[test]
fn generation_is_deterministic_for_same_seed_and_level() {
    let first = generate(1234, 0);
    let second = generate(1234, 0);
    assert_eq!(first, second);
}

#[test]
fn level_index_does_not_change_the_wall_set() {
    // Distinct level indices share one terrain field: the seed alone
    // determines the output (documented behavior).
    let level_zero = generate(1234, 0);
    let level_one = generate(1234, 1);
    let level_seven = generate(1234, 7);
    assert_eq!(level_zero, level_one);
    assert_eq!(level_zero, level_seven);
}

#[test]
fn seed_1234_exact_wall_set_shape() {
    let walls = generate(1234, 0);
    assert_eq!(walls.len(), 2180);
    assert_eq!(walls[0], GridLocation(-40, -40));
    assert_eq!(walls[walls.len() - 1], GridLocation(17, 23));
}

#[test]
fn different_seeds_give_different_wall_sets() {
    let a = generate(1234, 0);
    let b = generate(99, 0);
    assert_eq!(b.len(), 3215);
    assert_ne!(a, b);
}

#[test]
fn every_wall_lies_in_the_covered_chunk_range() {
    let walls = generate(1234, 0);
    for w in &walls {
        assert!(-40 <= w.0 && w.0 < 24);
        assert!(-40 <= w.1 && w.1 < 24);
    }
}

#[test]
fn spawn_coordinate_is_never_walled() {
    // Seed 0 is a seed whose noise clears the wall threshold at the
    // spawn tile itself: the exclusion, not the noise, keeps it open.
    for seed in [0u32, 1234, 99, 424242, u32::MAX] {
        let walls = generate(seed, 0);
        assert!(!walls.contains(&player_start()));
    }
}

#[test]
fn seed_0_walls_spawn_neighbors_but_not_spawn() {
    let walls = generate(0, 0);
    assert!(walls.contains(&GridLocation(1, -2)));
    assert!(walls.contains(&GridLocation(3, -2)));
    assert!(!walls.contains(&GridLocation(2, -2)));
}

#[test]
fn wall_sets_contain_no_duplicate_coordinates() {
    let mut walls = generate(1234, 0);
    let total = walls.len();
    walls.sort_by_key(|l| (l.0, l.1));
    walls.dedup();
    assert_eq!(walls.len(), total);
}
