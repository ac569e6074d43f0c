//! The simulation context: the entity registry and the per-tick
//! operations around it.
//!
//! A `GameState` is passed by reference into each tick's functions in
//! place of ambient shared state: it holds the world-generation state,
//! the entity lists (one per capability tag), the camera anchor
//! coordinate, and the id counter entities are numbered from.

use vstd::prelude::*;

use crate::grid::{spawn_coord, GridLocation};
use crate::lifecycle::{all_loaded, ensure_seed, AssetsLoading, GateState, WorldState};
use crate::occupancy::{all_in_band, coords_unique, in_band, Occupant, Occupied};
use crate::occupancy::OccupancyIndex;
use crate::terrain::{generate, lemma_wall_seq_props, wall_seq};

verus! {

/// The explicit simulation context handed into each tick's functions.
pub struct GameState {
    /// Has the player entity been spawned yet?
    pub spawned: bool,
    /// The level lifecycle and world-generation state.
    pub world_state: WorldState,
    /// The player entities.
    pub players: Vec<Occupied>,
    /// The movable (pushable) entities. Players are not tagged movable.
    pub movables: Vec<Occupied>,
    /// The wall entities, created in bulk by the terrain generator.
    pub walls: Vec<Occupied>,
    /// The coordinate of the camera anchor.
    pub camera: GridLocation,
    /// The next entity id to hand out.
    pub next_id: u64,
}

impl GameState {
    /// Well-formedness: walls and movables each bind a coordinate at
    /// most once, and every coordinate is comfortably inside the `i32`
    /// range.
    pub open spec fn wf(self) -> bool {
        &&& coords_unique(self.walls@)
        &&& coords_unique(self.movables@)
        &&& all_in_band(self.walls@)
        &&& all_in_band(self.movables@)
        &&& all_in_band(self.players@)
        &&& in_band(self.camera)
    }

    /// A fresh game: no entities, nothing loaded, the camera anchored
    /// at the player spawn.
    pub fn new() -> (r: GameState)
        ensures
            r.spawned == false,
            r.world_state == (WorldState {
                map_loaded: false,
                collisions_loaded: false,
                level: 0,
                requested_level: 0,
                seed: None,
            }),
            r.players@ == Seq::<Occupied>::empty(),
            r.movables@ == Seq::<Occupied>::empty(),
            r.walls@ == Seq::<Occupied>::empty(),
            r.camera == spawn_coord(),
            r.next_id == 0,
            r.wf(),
    {
        GameState {
            spawned: false,
            world_state: WorldState::new(),
            players: Vec::new(),
            movables: Vec::new(),
            walls: Vec::new(),
            camera: crate::grid::player_start(),
            next_id: 0,
        }
    }

    /// Record which level the caller wants active.
    pub fn request_level(&mut self, level: usize)
        ensures
            final(self).world_state == (WorldState {
                requested_level: level,
                ..old(self).world_state
            }),
            *final(self) == (GameState { world_state: final(self).world_state, ..*old(self) }),
    {
        self.world_state.requested_level = level;
    }

    /// Does the lifecycle report the requested level active?
    pub fn is_ready(&self) -> (r: bool)
        ensures
            r == !self.world_state.needs_generation(),
    {
        self.world_state.map_loaded && self.world_state.level == self.world_state.requested_level
    }

    /// Spawn a movable entity at `loc`.
    pub fn spawn_movable(&mut self, loc: GridLocation) -> (id: u64)
        requires
            old(self).next_id < u64::MAX,
        ensures
            id == old(self).next_id,
            final(self).movables@ == old(self).movables@.push((id, loc)),
            final(self).next_id == old(self).next_id + 1,
            *final(self) == (GameState {
                movables: final(self).movables,
                next_id: final(self).next_id,
                ..*old(self)
            }),
    {
        let id = self.next_id;
        self.movables.push((id, loc));
        self.next_id = id + 1;
        id
    }

    /// Spawn a wall entity at `loc` by hand (the terrain generator
    /// creates walls in bulk instead).
    pub fn spawn_wall(&mut self, loc: GridLocation) -> (id: u64)
        requires
            old(self).next_id < u64::MAX,
        ensures
            id == old(self).next_id,
            final(self).walls@ == old(self).walls@.push((id, loc)),
            final(self).next_id == old(self).next_id + 1,
            *final(self) == (GameState {
                walls: final(self).walls,
                next_id: final(self).next_id,
                ..*old(self)
            }),
    {
        let id = self.next_id;
        self.walls.push((id, loc));
        self.next_id = id + 1;
        id
    }

    /// Spawn the player once all tracked assets are loaded: the player
    /// entity appears at the spawn coordinate, exactly once per game.
    /// Returns whether the spawn happened this tick.
    pub fn setup_player(&mut self, assets: &AssetsLoading) -> (r: bool)
        requires
            old(self).next_id < u64::MAX,
        ensures
            r == (!old(self).spawned && all_loaded(assets.0@)),
            !r ==> *final(self) == *old(self),
            r ==> ({
                &&& final(self).players@ == old(self).players@.push(
                    (old(self).next_id, spawn_coord()),
                )
                &&& final(self).next_id == old(self).next_id + 1
                &&& final(self).spawned
                &&& *final(self) == (GameState {
                    players: final(self).players,
                    next_id: final(self).next_id,
                    spawned: true,
                    ..*old(self)
                })
            }),
    {
        if self.spawned {
            return false;
        }
        if !assets.ready() {
            return false;
        }
        let id = self.next_id;
        self.players.push((id, crate::grid::player_start()));
        self.next_id = id + 1;
        self.spawned = true;
        true
    }

    /// One poll of the level lifecycle.
    ///
    /// Active with an unchanged request is a no-op. While generation is
    /// needed and any tracked handle is not `Loaded`, the lifecycle stays
    /// awaiting and retries next tick. Otherwise the generator runs
    /// once for the requested level — assigning the process seed first
    /// if none exists — and the wall entities are replaced wholesale by
    /// the generated set (despawn-and-regenerate); then, atomically,
    /// `level := requested_level` and both loaded flags are set.
    pub fn level_tick(&mut self, assets: &AssetsLoading) -> (r: GateState)
        requires
            old(self).next_id + 4096 <= u64::MAX,
        ensures
            !old(self).world_state.needs_generation() ==> *final(self) == *old(self) && r
                == GateState::Active,
            old(self).world_state.needs_generation() && !all_loaded(assets.0@) ==> *final(self)
                == *old(self) && r == GateState::AwaitingAssets,
            old(self).world_state.needs_generation() && all_loaded(assets.0@) ==> ({
                let ws = final(self).world_state;
                let s = ws.seed.unwrap();
                &&& r == GateState::Generating
                &&& ws.seed.is_some()
                &&& (old(self).world_state.seed.is_some() ==> ws.seed
                    == old(self).world_state.seed)
                &&& ws.level == old(self).world_state.requested_level
                &&& ws.requested_level == old(self).world_state.requested_level
                &&& ws.map_loaded
                &&& ws.collisions_loaded
                &&& final(self).walls@.len() == wall_seq(s).len()
                &&& (forall|k: int|
                    0 <= k < wall_seq(s).len() ==> (#[trigger] final(self).walls@[k]).0 == old(
                        self,
                    ).next_id + k && final(self).walls@[k].1 == wall_seq(s)[k])
                &&& final(self).next_id == old(self).next_id + wall_seq(s).len()
                &&& final(self).players == old(self).players
                &&& final(self).movables == old(self).movables
                &&& final(self).camera == old(self).camera
                &&& final(self).spawned == old(self).spawned
                &&& coords_unique(final(self).walls@)
                &&& all_in_band(final(self).walls@)
            }),
    {
        if self.world_state.map_loaded && self.world_state.level
            == self.world_state.requested_level {
            return GateState::Active;
        }
        if !assets.ready() {
            return GateState::AwaitingAssets;
        }
        ensure_seed(&mut self.world_state);
        let seed = self.world_state.seed.unwrap();
        let new_walls = generate(seed, self.world_state.requested_level);
        proof {
            lemma_wall_seq_props(seed);
        }
        let base = self.next_id;
        let mut walls: Vec<Occupied> = Vec::new();
        let mut k: usize = 0;
        while k < new_walls.len()
            invariant
                k <= new_walls.len(),
                new_walls@ == wall_seq(seed),
                wall_seq(seed).len() <= 4096,
                base + 4096 <= u64::MAX,
                walls@.len() == k,
                forall|j: int|
                    0 <= j < k ==> (#[trigger] walls@[j]).0 == base + j && walls@[j].1 == wall_seq(
                        seed,
                    )[j],
            decreases new_walls.len() - k,
        {
            walls.push((base + (k as u64), new_walls[k]));
            k = k + 1;
        }
        self.walls = walls;
        self.next_id = base + (new_walls.len() as u64);
        self.world_state.level = self.world_state.requested_level;
        self.world_state.map_loaded = true;
        self.world_state.collisions_loaded = true;
        proof {
            assert forall|k1: int, k2: int|
                0 <= k1 < k2 < self.walls@.len() implies (#[trigger] self.walls@[k1]).1 != (
            #[trigger] self.walls@[k2]).1 by {
                assert(wall_seq(seed)[k1] != wall_seq(seed)[k2]);
            }
            assert forall|j: int| 0 <= j < self.walls@.len() implies in_band(
                (#[trigger] self.walls@[j]).1,
            ) by {
                assert(-40 <= wall_seq(seed)[j].0 < 24 && -40 <= wall_seq(seed)[j].1 < 24);
            }
        }
        GateState::Generating
    }

    /// Build this tick's occupancy index and report what occupies `c`.
    pub fn query_occupant(&self, c: GridLocation) -> (r: Occupant)
        ensures
            match r {
                Occupant::Immovable(id) => exists|k: int|
                    0 <= k < self.walls@.len() && (#[trigger] self.walls@[k]) == (id, c),
                Occupant::Movable(id) => !crate::occupancy::at_coord(
                    self.walls@,
                    crate::occupancy::view_loc(c),
                ) && exists|k: int|
                    0 <= k < self.movables@.len() && (#[trigger] self.movables@[k]) == (id, c),
                Occupant::Vacant => !crate::occupancy::at_coord(
                    self.walls@,
                    crate::occupancy::view_loc(c),
                ) && !crate::occupancy::at_coord(
                    self.movables@,
                    crate::occupancy::view_loc(c),
                ),
            },
    {
        let occ = OccupancyIndex::build(&self.walls, &self.movables);
        occ.query_occupant(c)
    }
}

} // verus!
