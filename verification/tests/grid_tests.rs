use gridcore::grid::{player_start, GridLocation};

#[test]
fn coordinates_add_component_wise() {
    let a = GridLocation(2, 3);
    let b = GridLocation(-1, 1);
    assert_eq!(a.add(b), GridLocation(1, 4));
    assert_eq!(GridLocation(0, 0).add(GridLocation(0, -1)), GridLocation(0, -1));
}

#[test]
fn equality_is_exact_integer_equality() {
    assert_eq!(GridLocation(5, -7), GridLocation(5, -7));
    assert_ne!(GridLocation(5, -7), GridLocation(-7, 5));
}

#[test]
fn player_start_is_the_designated_spawn() {
    assert_eq!(player_start(), GridLocation(2, -2));
}
