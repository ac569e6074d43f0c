//! Capability tags classifying the entities of the simulation.
//!
//! An entity is exactly one of: a player, an immovable wall, a pushable
//! movable, or the camera anchor. The tags carry no data; the entity
//! registry keeps one coordinate list per tag.

use vstd::prelude::*;

verus! {

/// Marker to help identify the player.
#[derive(Clone, Copy, PartialEq, Eq, Structural, Debug)]
pub struct Player;

/// Marker for hostiles.
#[derive(Clone, Copy, PartialEq, Eq, Structural, Debug)]
pub struct Enemy;

/// Marker for walls: immovable occupants that block push chains.
#[derive(Clone, Copy, PartialEq, Eq, Structural, Debug)]
pub struct Wall;

/// Marker for movable occupants: pushed along by the player.
#[derive(Clone, Copy, PartialEq, Eq, Structural, Debug)]
pub struct Movable;

/// Marker for the camera anchor the follower smooths toward.
#[derive(Clone, Copy, PartialEq, Eq, Structural, Debug)]
pub struct MainCamera;

/// A player's display name.
#[derive(PartialEq, Eq, Debug)]
pub struct PlayerName(pub String);

} // verus!
