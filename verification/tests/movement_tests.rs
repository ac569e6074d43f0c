use gridcore::game::GameState;
use gridcore::movement::{attempt_move, resolve_direction, DirectionRequest, MoveOutcome};
use gridcore::occupancy::Occupant;
use gridcore::GridLocation;

fn no_request() -> DirectionRequest {
    DirectionRequest { left: false, right: false, down: false, up: false }
}

fn press_right() -> DirectionRequest {
    DirectionRequest { right: true, ..no_request() }
}

fn world_with_player_at(loc: GridLocation) -> GameState {
    let mut gs = GameState::new();
    gs.players.push((gs.next_id, loc));
    gs.next_id += 1;
    gs
}

#[test]
fn no_direction_is_a_noop() {
    let mut gs = world_with_player_at(GridLocation(0, 0));
    gs.spawn_movable(GridLocation(1, 0));
    let outcome = attempt_move(&mut gs, no_request());
    assert_eq!(outcome, MoveOutcome::NoOp);
    assert_eq!(gs.players[0].1, GridLocation(0, 0));
    assert_eq!(gs.movables[0].1, GridLocation(1, 0));
    assert_eq!(gs.camera, GridLocation(2, -2));
}

#[test]
fn direction_priority_is_left_right_down_up() {
    assert_eq!(
        resolve_direction(DirectionRequest { left: true, right: true, down: true, up: true }),
        Some(GridLocation(-1, 0))
    );
    assert_eq!(
        resolve_direction(DirectionRequest { right: true, down: true, up: true, ..no_request() }),
        Some(GridLocation(1, 0))
    );
    assert_eq!(
        resolve_direction(DirectionRequest { down: true, up: true, ..no_request() }),
        Some(GridLocation(0, -1))
    );
    assert_eq!(
        resolve_direction(DirectionRequest { up: true, ..no_request() }),
        Some(GridLocation(0, 1))
    );
    assert_eq!(resolve_direction(no_request()), None);
}

#[test]
fn push_into_open_space_moves_player_and_movable() {
    // Player at (0,0), movable at (1,0), open space at (2,0),
    // direction right: player moves to (1,0), movable to (2,0).
    let mut gs = world_with_player_at(GridLocation(0, 0));
    gs.spawn_movable(GridLocation(1, 0));
    let outcome = attempt_move(&mut gs, press_right());
    assert_eq!(outcome, MoveOutcome::Moved);
    assert_eq!(gs.players[0].1, GridLocation(1, 0));
    assert_eq!(gs.movables[0].1, GridLocation(2, 0));
}

#[test]
fn push_against_wall_is_blocked_and_idempotent() {
    // Player at (0,0), movable at (1,0), wall at (2,0), direction
    // right: Blocked, and nothing changes however often it is retried.
    let mut gs = world_with_player_at(GridLocation(0, 0));
    gs.spawn_movable(GridLocation(1, 0));
    gs.spawn_wall(GridLocation(2, 0));
    for _ in 0..3 {
        let outcome = attempt_move(&mut gs, press_right());
        assert_eq!(outcome, MoveOutcome::Blocked);
        assert_eq!(gs.players[0].1, GridLocation(0, 0));
        assert_eq!(gs.movables[0].1, GridLocation(1, 0));
        assert_eq!(gs.camera, GridLocation(2, -2));
    }
}

#[test]
fn chain_of_three_movables_shifts_as_a_unit() {
    // A chain of n movables ahead of the player: all n + 1
    // participants shift by exactly one delta.
    let mut gs = world_with_player_at(GridLocation(0, 0));
    gs.spawn_movable(GridLocation(1, 0));
    gs.spawn_movable(GridLocation(2, 0));
    gs.spawn_movable(GridLocation(3, 0));
    let outcome = attempt_move(&mut gs, press_right());
    assert_eq!(outcome, MoveOutcome::Moved);
    assert_eq!(gs.players[0].1, GridLocation(1, 0));
    assert_eq!(gs.movables[0].1, GridLocation(2, 0));
    assert_eq!(gs.movables[1].1, GridLocation(3, 0));
    assert_eq!(gs.movables[2].1, GridLocation(4, 0));
}

#[test]
fn chain_blocked_at_far_end_freezes_whole_chain() {
    let mut gs = world_with_player_at(GridLocation(0, 0));
    gs.spawn_movable(GridLocation(1, 0));
    gs.spawn_movable(GridLocation(2, 0));
    gs.spawn_wall(GridLocation(3, 0));
    let outcome = attempt_move(&mut gs, press_right());
    assert_eq!(outcome, MoveOutcome::Blocked);
    assert_eq!(gs.players[0].1, GridLocation(0, 0));
    assert_eq!(gs.movables[0].1, GridLocation(1, 0));
    assert_eq!(gs.movables[1].1, GridLocation(2, 0));
}

#[test]
fn gap_in_chain_stops_the_scan() {
    // The movable beyond the gap does not move; the wall beyond it
    // does not block, because the scan stopped at the gap.
    let mut gs = world_with_player_at(GridLocation(0, 0));
    gs.spawn_movable(GridLocation(1, 0));
    gs.spawn_movable(GridLocation(3, 0));
    gs.spawn_wall(GridLocation(4, 0));
    let outcome = attempt_move(&mut gs, press_right());
    assert_eq!(outcome, MoveOutcome::Moved);
    assert_eq!(gs.players[0].1, GridLocation(1, 0));
    assert_eq!(gs.movables[0].1, GridLocation(2, 0));
    assert_eq!(gs.movables[1].1, GridLocation(3, 0));
}

#[test]
fn movement_works_in_all_four_directions() {
    let cases = [
        (DirectionRequest { left: true, ..no_request() }, GridLocation(-1, 0)),
        (DirectionRequest { right: true, ..no_request() }, GridLocation(1, 0)),
        (DirectionRequest { down: true, ..no_request() }, GridLocation(0, -1)),
        (DirectionRequest { up: true, ..no_request() }, GridLocation(0, 1)),
    ];
    for (req, expected) in cases {
        let mut gs = world_with_player_at(GridLocation(0, 0));
        let outcome = attempt_move(&mut gs, req);
        assert_eq!(outcome, MoveOutcome::Moved);
        assert_eq!(gs.players[0].1, expected);
    }
}

#[test]
fn camera_anchor_shifts_once_when_a_player_moves() {
    let mut gs = world_with_player_at(GridLocation(0, 0));
    assert_eq!(gs.camera, GridLocation(2, -2));
    attempt_move(&mut gs, press_right());
    assert_eq!(gs.camera, GridLocation(3, -2));
    attempt_move(&mut gs, DirectionRequest { up: true, ..no_request() });
    assert_eq!(gs.camera, GridLocation(3, -1));
}

#[test]
fn duplicate_start_coordinate_processes_only_the_first_player() {
    // Two players share a starting coordinate: only the first is
    // processed; the second is skipped by the duplicate-chain guard.
    let mut gs = world_with_player_at(GridLocation(0, 0));
    gs.players.push((77, GridLocation(0, 0)));
    let outcome = attempt_move(&mut gs, press_right());
    assert_eq!(outcome, MoveOutcome::Moved);
    assert_eq!(gs.players[0].1, GridLocation(1, 0));
    assert_eq!(gs.players[1].1, GridLocation(0, 0));
}

#[test]
fn blocked_when_wall_directly_ahead() {
    let mut gs = world_with_player_at(GridLocation(5, 5));
    gs.spawn_wall(GridLocation(6, 5));
    let outcome = attempt_move(&mut gs, press_right());
    assert_eq!(outcome, MoveOutcome::Blocked);
    assert_eq!(gs.players[0].1, GridLocation(5, 5));
}

#[test]
fn query_occupant_reports_walls_movables_and_vacancy() {
    let mut gs = GameState::new();
    let wall_id = gs.spawn_wall(GridLocation(2, 0));
    let movable_id = gs.spawn_movable(GridLocation(1, 0));
    assert_eq!(gs.query_occupant(GridLocation(2, 0)), Occupant::Immovable(wall_id));
    assert_eq!(gs.query_occupant(GridLocation(1, 0)), Occupant::Movable(movable_id));
    assert_eq!(gs.query_occupant(GridLocation(0, 0)), Occupant::Vacant);
}
