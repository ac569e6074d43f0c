//! The level lifecycle: asset readiness and the world-generation state.
//!
//! Level activation waits on externally tracked asset handles. The
//! core never awaits a load; it consumes the per-handle load states as
//! plain values, polled by the caller every tick. A handle that reports
//! `Failed`, or that never leaves a non-terminal state, blocks activation
//! indefinitely (documented limitation: failure is treated exactly like
//! a still-pending load).

use vstd::prelude::*;

verus! {

/// The load state an asset readiness provider reports for one handle.
#[derive(Clone, Copy, PartialEq, Eq, Structural, Debug)]
pub enum LoadState {
    NotLoaded,
    Loading,
    Loaded,
    Failed,
}

/// The tracked load states of the asset handles relevant to the level,
/// in the order the handles were registered.
pub struct AssetsLoading(pub Vec<LoadState>);

/// Every tracked handle reports `Loaded`.
pub open spec fn all_loaded(states: Seq<LoadState>) -> bool {
    forall|k: int| 0 <= k < states.len() ==> states[k] == LoadState::Loaded
}

impl AssetsLoading {
    /// Poll the tracked handles: ready exactly when every handle
    /// reports `Loaded`; `Failed` blocks just like a pending load.
    pub fn ready(&self) -> (r: bool)
        ensures
            r == all_loaded(self.0@),
    {
        let mut k: usize = 0;
        while k < self.0.len()
            invariant
                k <= self.0.len(),
                forall|j: int| 0 <= j < k ==> self.0@[j] == LoadState::Loaded,
            decreases self.0.len() - k,
        {
            match self.0[k] {
                LoadState::Loaded => {},
                _ => {
                    return false;
                },
            }
            k = k + 1;
        }
        true
    }
}

/// The world-generation state: the single optional process seed, the
/// current and requested level, and the flags gating regeneration.
/// Generation for a level runs only while `requested_level != level` or
/// `!map_loaded`; completing it atomically sets `level :=
/// requested_level` and both loaded flags.
#[derive(Clone, Copy, PartialEq, Eq, Structural, Debug)]
pub struct WorldState {
    pub map_loaded: bool,
    pub collisions_loaded: bool,
    pub level: usize,
    pub requested_level: usize,
    pub seed: Option<u32>,
}

impl WorldState {
    /// A fresh world: nothing loaded, level zero requested, no seed
    /// assigned yet.
    pub fn new() -> (r: WorldState)
        ensures
            r == (WorldState {
                map_loaded: false,
                collisions_loaded: false,
                level: 0,
                requested_level: 0,
                seed: None,
            }),
    {
        WorldState {
            map_loaded: false,
            collisions_loaded: false,
            level: 0,
            requested_level: 0,
            seed: None,
        }
    }

    /// Generation must still run before the requested level is
    /// usable.
    pub open spec fn needs_generation(self) -> bool {
        self.requested_level != self.level || !self.map_loaded
    }
}

/// The observable states of the level lifecycle. A fresh `WorldState`
/// already records a pending request (nothing is loaded), so the idle
/// state before any request collapses into awaiting assets;
/// `Generating` names the tick on which the generator ran, after which
/// the lifecycle reports `Active` until the requested level changes.
#[derive(Clone, Copy, PartialEq, Eq, Structural, Debug)]
pub enum GateState {
    AwaitingAssets,
    Generating,
    Active,
}

/// Relies on `rand::random`: draws one 32-bit value from the
/// thread-local generator. Nothing is promised of the value; the seed
/// it becomes is stored and every later use is a function of the
/// stored value alone.
#[verifier::external_body]
fn fresh_seed() -> u32 {
    rand::random::<u32>()
}

/// Assign the process seed if none has been assigned yet: the seed is
/// drawn lazily, once, and reused for every subsequent generation.
pub fn ensure_seed(ws: &mut WorldState)
    ensures
        final(ws).seed.is_some(),
        old(ws).seed.is_some() ==> *final(ws) == *old(ws),
        *final(ws) == (WorldState { seed: final(ws).seed, ..*old(ws) }),
{
    if ws.seed.is_none() {
        let s = fresh_seed();
        ws.seed = Some(s);
    }
}

} // verus!
