use gridcore::game::GameState;
use gridcore::grid::player_start;
use gridcore::lifecycle::{AssetsLoading, GateState, LoadState, WorldState};
use gridcore::terrain::generate;
use gridcore::GridLocation;

fn all_loaded() -> AssetsLoading {
    AssetsLoading(vec![LoadState::Loaded, LoadState::Loaded, LoadState::Loaded])
}

#[test]
fn ready_requires_every_handle_loaded() {
    assert!(all_loaded().ready());
    assert!(AssetsLoading(vec![]).ready());
    assert!(!AssetsLoading(vec![LoadState::Loaded, LoadState::Loading]).ready());
    assert!(!AssetsLoading(vec![LoadState::NotLoaded]).ready());
}

#[test]
fn failed_handle_blocks_like_a_pending_one() {
    // A Failed handle is handled identically to a still-pending load:
    // both keep the lifecycle awaiting forever (documented behavior).
    let failed = AssetsLoading(vec![LoadState::Loaded, LoadState::Failed]);
    assert!(!failed.ready());
    let mut gs = GameState::new();
    for _ in 0..3 {
        assert_eq!(gs.level_tick(&failed), GateState::AwaitingAssets);
        assert!(!gs.is_ready());
        assert!(gs.walls.is_empty());
    }
}

#[test]
fn fresh_world_state_is_unloaded_level_zero() {
    let ws = WorldState::new();
    assert!(!ws.map_loaded);
    assert!(!ws.collisions_loaded);
    assert_eq!(ws.level, 0);
    assert_eq!(ws.requested_level, 0);
    assert_eq!(ws.seed, None);
}

#[test]
fn lifecycle_generates_once_and_then_reports_active() {
    let mut gs = GameState::new();
    assert!(!gs.is_ready());
    assert_eq!(gs.level_tick(&all_loaded()), GateState::Generating);
    assert!(gs.world_state.map_loaded);
    assert!(gs.world_state.collisions_loaded);
    assert!(gs.world_state.seed.is_some());
    assert!(gs.is_ready());
    // Active with an unchanged request is a no-op on every later tick.
    let walls_after_first = gs.walls.clone();
    assert_eq!(gs.level_tick(&all_loaded()), GateState::Active);
    assert_eq!(gs.walls, walls_after_first);
}

#[test]
fn generated_walls_match_the_generator_for_the_stored_seed() {
    let mut gs = GameState::new();
    gs.level_tick(&all_loaded());
    let seed = gs.world_state.seed.unwrap();
    let expected = generate(seed, gs.world_state.level);
    assert_eq!(gs.walls.len(), expected.len());
    for (k, (_, coord)) in gs.walls.iter().enumerate() {
        assert_eq!(*coord, expected[k]);
    }
    assert!(!expected.contains(&player_start()));
}

#[test]
fn requesting_a_new_level_reuses_the_seed_and_regenerates() {
    let mut gs = GameState::new();
    gs.level_tick(&all_loaded());
    let seed = gs.world_state.seed.unwrap();
    let first_walls: Vec<GridLocation> = gs.walls.iter().map(|w| w.1).collect();
    gs.request_level(3);
    assert!(!gs.is_ready());
    assert_eq!(gs.level_tick(&all_loaded()), GateState::Generating);
    assert_eq!(gs.world_state.seed, Some(seed));
    assert_eq!(gs.world_state.level, 3);
    assert!(gs.is_ready());
    // One process-wide seed: the regenerated level shares the terrain.
    let second_walls: Vec<GridLocation> = gs.walls.iter().map(|w| w.1).collect();
    assert_eq!(first_walls, second_walls);
}

#[test]
fn player_spawns_once_when_assets_are_ready() {
    let mut gs = GameState::new();
    let pending = AssetsLoading(vec![LoadState::Loading]);
    assert!(!gs.setup_player(&pending));
    assert!(gs.players.is_empty());
    assert!(!gs.spawned);
    assert!(gs.setup_player(&all_loaded()));
    assert!(gs.spawned);
    assert_eq!(gs.players.len(), 1);
    assert_eq!(gs.players[0].1, player_start());
    assert_eq!(gs.players[0].1, GridLocation(2, -2));
    // A second call never spawns a second player.
    assert!(!gs.setup_player(&all_loaded()));
    assert_eq!(gs.players.len(), 1);
}

#[test]
fn fresh_game_state_anchors_camera_at_spawn() {
    let gs = GameState::new();
    assert_eq!(gs.camera, player_start());
    assert!(gs.players.is_empty());
    assert!(gs.movables.is_empty());
    assert!(gs.walls.is_empty());
    assert!(!gs.spawned);
    assert_eq!(gs.next_id, 0);
}
