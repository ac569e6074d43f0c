//! The movement resolver: Sokoban-style push-chain resolution.
//!
//! Each tick the resolver consumes one direction request and the
//! occupancy index built from the current entity lists. For each player
//! it scans the coordinates ahead, one unit delta at a time: every
//! movable hit joins the candidate chain, and the scan stops at the
//! first coordinate free of movables. If a wall stands there the whole
//! chain — and the player's own move — is aborted; otherwise the player
//! and every chain member shift by exactly one delta. A push against a
//! wall is not an error but a defined, silently idempotent `Blocked`
//! outcome.

use vstd::prelude::*;
use vstd::seq_lib::*;
use vstd::set_lib::{lemma_int_range, lemma_len_subset, set_int_range};

use crate::game::GameState;
use crate::grid::GridLocation;
use crate::occupancy::{
    all_in_band, at_coord, coords_unique, find_at, in_band, loc_is, view_loc, Occupied,
};
use crate::occupancy::OccupancyIndex;

verus! {

/// The direction signals newly pressed this tick, one flag per
/// direction.
#[derive(Clone, Copy, PartialEq, Eq, Structural, Debug)]
pub struct DirectionRequest {
    pub left: bool,
    pub right: bool,
    pub down: bool,
    pub up: bool,
}

/// The outcome of one resolution pass.
#[derive(Clone, Copy, PartialEq, Eq, Structural, Debug)]
pub enum MoveOutcome {
    /// No direction was newly pressed; nothing was even scanned.
    NoOp,
    /// A direction was honored but no player could move.
    Blocked,
    /// At least one player moved.
    Moved,
}

/// The unit delta a request resolves to under the fixed priority order
/// left, right, down, up — the first satisfied direction wins; `None`
/// when no direction was newly pressed.
pub open spec fn direction_delta(req: DirectionRequest) -> Option<GridLocation> {
    if req.left {
        Some(GridLocation(-1i32, 0i32))
    } else if req.right {
        Some(GridLocation(1i32, 0i32))
    } else if req.down {
        Some(GridLocation(0i32, -1i32))
    } else if req.up {
        Some(GridLocation(0i32, 1i32))
    } else {
        None
    }
}

/// Resolve the request to its unit delta.
pub fn resolve_direction(req: DirectionRequest) -> (r: Option<GridLocation>)
    ensures
        r == direction_delta(req),
{
    if req.left {
        Some(GridLocation(-1, 0))
    } else if req.right {
        Some(GridLocation(1, 0))
    } else if req.down {
        Some(GridLocation(0, -1))
    } else if req.up {
        Some(GridLocation(0, 1))
    } else {
        None
    }
}

/// `d` is one of the four unit deltas.
pub open spec fn is_unit_delta(d: GridLocation) -> bool {
    ||| d == GridLocation(-1i32, 0i32)
    ||| d == GridLocation(1i32, 0i32)
    ||| d == GridLocation(0i32, -1i32)
    ||| d == GridLocation(0i32, 1i32)
}

/// The coordinate `j` steps from `start` in direction `delta`.
pub open spec fn ray(start: (int, int), delta: GridLocation, j: int) -> (int, int) {
    (start.0 + j * delta.0, start.1 + j * delta.1)
}

/// `n` is the length of the contiguous run of movables ahead of
/// `start`: every coordinate 1 through `n` steps out holds a movable
/// and the coordinate `n + 1` steps out holds none.
pub open spec fn is_chain_len(
    movs: Seq<Occupied>,
    start: (int, int),
    delta: GridLocation,
    n: int,
) -> bool {
    &&& 0 <= n
    &&& (forall|j: int| 1 <= j <= n ==> at_coord(movs, #[trigger] ray(start, delta, j)))
    &&& !at_coord(movs, ray(start, delta, n + 1))
}

/// The length of the push chain ahead of `start`.
pub open spec fn chain_len(movs: Seq<Occupied>, start: (int, int), delta: GridLocation) -> int {
    choose|n: int| is_chain_len(movs, start, delta, n)
}

/// Advancing one step along the ray adds one delta.
proof fn lemma_ray_step(start: (int, int), delta: GridLocation, j: int)
    ensures
        ray(start, delta, j + 1).0 == ray(start, delta, j).0 + delta.0,
        ray(start, delta, j + 1).1 == ray(start, delta, j).1 + delta.1,
{
    assert((j + 1) * (delta.0 as int) == j * (delta.0 as int) + delta.0) by (nonlinear_arith);
    assert((j + 1) * (delta.1 as int) == j * (delta.1 as int) + delta.1) by (nonlinear_arith);
}

/// A unit delta visits pairwise distinct coordinates.
proof fn lemma_ray_injective(start: (int, int), delta: GridLocation, j1: int, j2: int)
    requires
        is_unit_delta(delta),
        ray(start, delta, j1) == ray(start, delta, j2),
    ensures
        j1 == j2,
{
    let dx = delta.0 as int;
    let dy = delta.1 as int;
    if dx != 0 {
        assert(j1 * dx == j2 * dx);
        assert(j1 == j2) by (nonlinear_arith)
            requires
                j1 * dx == j2 * dx,
                dx != 0,
        ;
    } else {
        assert(j1 * dy == j2 * dy);
        assert(j1 == j2) by (nonlinear_arith)
            requires
                j1 * dy == j2 * dy,
                dy != 0,
        ;
    }
}

/// A contiguous run of `n` movables ahead of `start` pins `n` distinct
/// entries of the movable list, so `n` never exceeds the list's length.
proof fn lemma_chain_fits(movs: Seq<Occupied>, start: (int, int), delta: GridLocation, n: int)
    requires
        is_unit_delta(delta),
        0 <= n,
        forall|j: int| 1 <= j <= n ==> at_coord(movs, #[trigger] ray(start, delta, j)),
    ensures
        n <= movs.len(),
{
    if n > movs.len() {
        let idxs = Seq::<int>::new(
            n as nat,
            |j: int|
                choose|k: int|
                    0 <= k < movs.len() && loc_is(#[trigger] movs[k].1, ray(start, delta, j + 1)),
        );
        assert forall|j: int| 0 <= j < n implies 0 <= idxs[j] < movs.len() && loc_is(
            movs[idxs[j]].1,
            ray(start, delta, j + 1),
        ) by {
            assert(at_coord(movs, ray(start, delta, j + 1)));
        }
        assert forall|a: int, b: int|
            0 <= a < idxs.len() && 0 <= b < idxs.len() && a != b implies idxs[a] != idxs[b] by {
            if idxs[a] == idxs[b] {
                assert(loc_is(movs[idxs[a]].1, ray(start, delta, a + 1)));
                assert(loc_is(movs[idxs[b]].1, ray(start, delta, b + 1)));
                assert(ray(start, delta, a + 1) == ray(start, delta, b + 1));
                lemma_ray_injective(start, delta, a + 1, b + 1);
            }
        }
        assert(idxs.no_duplicates());
        idxs.unique_seq_to_set();
        assert forall|e: int| idxs.to_set().contains(e) implies set_int_range(
            0,
            movs.len() as int,
        ).contains(e) by {
            let j = choose|j: int| 0 <= j < idxs.len() && idxs[j] == e;
            assert(0 <= idxs[j] < movs.len());
        }
        lemma_int_range(0, movs.len() as int);
        lemma_len_subset(idxs.to_set(), set_int_range(0, movs.len() as int));
        assert(false);
    }
}

/// Helper: if no chain length exists at all, every prefix of the ray is
/// covered by movables.
proof fn lemma_prefix_all(movs: Seq<Occupied>, start: (int, int), delta: GridLocation, n: int)
    requires
        0 <= n,
        forall|m: int| 0 <= m ==> !is_chain_len(movs, start, delta, m),
    ensures
        forall|j: int| 1 <= j <= n ==> at_coord(movs, #[trigger] ray(start, delta, j)),
    decreases n,
{
    if n > 0 {
        lemma_prefix_all(movs, start, delta, n - 1);
        assert(!is_chain_len(movs, start, delta, n - 1));
        assert(at_coord(movs, ray(start, delta, n)));
    }
}

/// The push chain ahead of any start has a well-defined length.
pub proof fn lemma_chain_len_exists(movs: Seq<Occupied>, start: (int, int), delta: GridLocation)
    requires
        is_unit_delta(delta),
    ensures
        exists|n: int| is_chain_len(movs, start, delta, n),
{
    if !(exists|n: int| is_chain_len(movs, start, delta, n)) {
        assert forall|m: int| 0 <= m implies !is_chain_len(movs, start, delta, m) by {}
        lemma_prefix_all(movs, start, delta, movs.len() as int + 1);
        lemma_chain_fits(movs, start, delta, movs.len() as int + 1);
        assert(false);
    }
}

/// A witnessed chain length is the chain length.
pub proof fn lemma_chain_len_is(
    movs: Seq<Occupied>,
    start: (int, int),
    delta: GridLocation,
    n: int,
)
    requires
        is_unit_delta(delta),
        is_chain_len(movs, start, delta, n),
    ensures
        chain_len(movs, start, delta) == n,
{
    let m = chain_len(movs, start, delta);
    assert(is_chain_len(movs, start, delta, m));
    if m < n {
        assert(at_coord(movs, ray(start, delta, m + 1)));
        assert(false);
    }
    if m > n {
        assert(at_coord(movs, ray(start, delta, n + 1)));
        assert(false);
    }
}

/// In a list without duplicate coordinates, a coordinate pins its
/// entry's index.
proof fn lemma_at_coord_unique(s: Seq<Occupied>, c: (int, int), k1: int, k2: int)
    requires
        coords_unique(s),
        0 <= k1 < s.len(),
        0 <= k2 < s.len(),
        loc_is(s[k1].1, c),
        loc_is(s[k2].1, c),
    ensures
        k1 == k2,
{
    if k1 != k2 {
        assert(s[k1].1 == s[k2].1);
    }
}

/// Ray endpoints at steps zero and one.
pub proof fn lemma_ray_zero_one(start: (int, int), delta: GridLocation)
    ensures
        ray(start, delta, 0) == start,
        ray(start, delta, 1).0 == start.0 + delta.0,
        ray(start, delta, 1).1 == start.1 + delta.1,
{
    assert(0 * (delta.0 as int) == 0) by (nonlinear_arith);
    assert(0 * (delta.1 as int) == 0) by (nonlinear_arith);
    assert(1 * (delta.0 as int) == delta.0 as int) by (nonlinear_arith);
    assert(1 * (delta.1 as int) == delta.1 as int) by (nonlinear_arith);
}

/// A ray of `j` unit steps stays within `j` of its start.
proof fn lemma_ray_band(start: (int, int), delta: GridLocation, j: int)
    requires
        is_unit_delta(delta),
        0 <= j,
    ensures
        start.0 - j <= ray(start, delta, j).0 <= start.0 + j,
        start.1 - j <= ray(start, delta, j).1 <= start.1 + j,
{
    let dx = delta.0 as int;
    let dy = delta.1 as int;
    assert(-j <= j * dx <= j) by (nonlinear_arith)
        requires
            -1 <= dx <= 1,
            0 <= j,
    ;
    assert(-j <= j * dy <= j) by (nonlinear_arith)
        requires
            -1 <= dy <= 1,
            0 <= j,
    ;
}

/// Scan the push chain ahead of `start`: the chain of movable-list
/// indices hit in order, and whether a wall blocks the coordinate the
/// chain would shift into.
fn resolve_chain(occ: &OccupancyIndex, start: GridLocation, delta: GridLocation) -> (r: (
    Vec<usize>,
    bool,
))
    requires
        occ.wf(),
        is_unit_delta(delta),
        in_band(start),
        all_in_band(occ.movable@),
    ensures
        is_chain_len(occ.movable@, view_loc(start), delta, r.0@.len() as int),
        forall|j: int|
            0 <= j < r.0@.len() ==> (#[trigger] r.0@[j]) < occ.movable@.len() && loc_is(
                occ.movable@[r.0@[j] as int].1,
                ray(view_loc(start), delta, j + 1),
            ),
        r.1 == at_coord(occ.immovable@, ray(view_loc(start), delta, r.0@.len() as int + 1)),
{
    let mut chain: Vec<usize> = Vec::new();
    let mut cur: GridLocation = start.add(delta);
    loop
        invariant
            occ.wf(),
            is_unit_delta(delta),
            in_band(start),
            all_in_band(occ.movable@),
            chain@.len() <= occ.movable@.len(),
            view_loc(cur) == ray(view_loc(start), delta, chain@.len() as int + 1),
            -1_000_000_001 <= cur.0 <= 1_000_000_001,
            -1_000_000_001 <= cur.1 <= 1_000_000_001,
            forall|j: int|
                0 <= j < chain@.len() ==> (#[trigger] chain@[j]) < occ.movable@.len() && loc_is(
                    occ.movable@[chain@[j] as int].1,
                    ray(view_loc(start), delta, j + 1),
                ),
        decreases occ.movable@.len() - chain@.len(),
    {
        match find_at(&occ.movable, cur) {
            Some(k) => {
                chain.push(k);
                proof {
                    assert forall|j: int| 1 <= j <= chain@.len() implies at_coord(
                        occ.movable@,
                        #[trigger] ray(view_loc(start), delta, j),
                    ) by {
                        assert(loc_is(
                            occ.movable@[chain@[j - 1] as int].1,
                            ray(view_loc(start), delta, j),
                        ));
                    }
                    lemma_chain_fits(
                        occ.movable@,
                        view_loc(start),
                        delta,
                        chain@.len() as int,
                    );
                    assert(in_band(occ.movable@[k as int].1));
                    lemma_ray_step(view_loc(start), delta, chain@.len() as int);
                }
                cur = cur.add(delta);
            },
            None => {
                let blocked = match find_at(&occ.immovable, cur) {
                    Some(_) => true,
                    None => false,
                };
                proof {
                    assert forall|j: int| 1 <= j <= chain@.len() implies at_coord(
                        occ.movable@,
                        #[trigger] ray(view_loc(start), delta, j),
                    ) by {
                        assert(loc_is(
                            occ.movable@[chain@[j - 1] as int].1,
                            ray(view_loc(start), delta, j),
                        ));
                    }
                }
                return (chain, blocked);
            },
        }
    }
}

/// An earlier player starts at the same coordinate as player `i`.
pub open spec fn dup_start(players: Seq<Occupied>, i: int) -> bool {
    exists|j: int| 0 <= j < i && (#[trigger] players[j]).1 == players[i].1
}

/// Player `i`'s move goes through this tick: no earlier player shares
/// its starting coordinate (the duplicate-chain guard), and no wall
/// stands at the coordinate its push chain would shift into.
pub open spec fn succeeds(
    players: Seq<Occupied>,
    movs: Seq<Occupied>,
    walls: Seq<Occupied>,
    delta: GridLocation,
    i: int,
) -> bool {
    &&& !dup_start(players, i)
    &&& !at_coord(
        walls,
        ray(
            view_loc(players[i].1),
            delta,
            chain_len(movs, view_loc(players[i].1), delta) + 1,
        ),
    )
}

/// Movable entry `k` stands in the push chain ahead of `start`.
pub open spec fn in_chain(
    movs: Seq<Occupied>,
    start: (int, int),
    delta: GridLocation,
    k: int,
) -> bool {
    exists|j: int|
        1 <= j <= chain_len(movs, start, delta) && loc_is(
            movs[k].1,
            #[trigger] ray(start, delta, j),
        )
}

/// How many of the first `upto` players shift movable entry `k` this
/// tick: one for each successful player whose chain contains it.
pub open spec fn shift_count(
    players: Seq<Occupied>,
    movs: Seq<Occupied>,
    walls: Seq<Occupied>,
    delta: GridLocation,
    k: int,
    upto: int,
) -> int
    decreases upto,
{
    if upto <= 0 {
        0
    } else {
        shift_count(players, movs, walls, delta, k, upto - 1) + (
        if succeeds(players, movs, walls, delta, upto - 1) && in_chain(
            movs,
            view_loc(players[upto - 1].1),
            delta,
            k,
        ) {
            1int
        } else {
            0int
        })
    }
}

/// Some player's move goes through this tick.
pub open spec fn any_success(
    players: Seq<Occupied>,
    movs: Seq<Occupied>,
    walls: Seq<Occupied>,
    delta: GridLocation,
) -> bool {
    exists|i: int| 0 <= i < players.len() && #[trigger] succeeds(players, movs, walls, delta, i)
}

/// Occurrences of index `k` among the first `upto` entries of `s`.
pub open spec fn count_idx(s: Seq<usize>, k: int, upto: int) -> int
    decreases upto,
{
    if upto <= 0 {
        0
    } else {
        count_idx(s, k, upto - 1) + if s[upto - 1] as int == k {
            1int
        } else {
            0int
        }
    }
}

/// Counts agree on sequences that agree on the counted prefix.
proof fn lemma_count_agree(s1: Seq<usize>, s2: Seq<usize>, k: int, upto: int)
    requires
        0 <= upto <= s1.len(),
        upto <= s2.len(),
        forall|t: int| 0 <= t < upto ==> s1[t] == s2[t],
    ensures
        count_idx(s1, k, upto) == count_idx(s2, k, upto),
    decreases upto,
{
    if upto > 0 {
        lemma_count_agree(s1, s2, k, upto - 1);
    }
}

/// Counting over a concatenation splits into the two counts.
proof fn lemma_count_concat(a: Seq<usize>, b: Seq<usize>, k: int)
    ensures
        count_idx(a + b, k, (a + b).len() as int) == count_idx(a, k, a.len() as int) + count_idx(
            b,
            k,
            b.len() as int,
        ),
    decreases b.len(),
{
    if b.len() == 0 {
        assert(a + b =~= a);
        lemma_count_agree(a + b, a, k, a.len() as int);
    } else {
        let b0 = b.drop_last();
        lemma_count_concat(a, b0, k);
        lemma_count_agree(a + b, a + b0, k, (a + b0).len() as int);
        lemma_count_agree(b, b0, k, b0.len() as int);
        assert((a + b)[(a + b).len() - 1] == b[b.len() - 1]);
    }
}

/// A count over entries all different from `k` is zero.
proof fn lemma_count_zero(s: Seq<usize>, k: int, upto: int)
    requires
        0 <= upto <= s.len(),
        forall|t: int| 0 <= t < upto ==> (#[trigger] s[t]) as int != k,
    ensures
        count_idx(s, k, upto) == 0,
    decreases upto,
{
    if upto > 0 {
        lemma_count_zero(s, k, upto - 1);
    }
}

/// A count over entries that hit `k` exactly once is one.
proof fn lemma_count_one(s: Seq<usize>, k: int, upto: int, p: int)
    requires
        0 <= p < upto <= s.len(),
        s[p] as int == k,
        forall|t: int| 0 <= t < upto && t != p ==> (#[trigger] s[t]) as int != k,
    ensures
        count_idx(s, k, upto) == 1,
    decreases upto,
{
    if upto - 1 == p {
        lemma_count_zero(s, k, upto - 1);
    } else {
        lemma_count_one(s, k, upto - 1, p);
    }
}

/// Counts are never negative.
proof fn lemma_count_nonneg(s: Seq<usize>, k: int, upto: int)
    ensures
        0 <= count_idx(s, k, upto),
    decreases upto,
{
    if upto > 0 {
        lemma_count_nonneg(s, k, upto - 1);
    }
}

/// Counts only grow as the counted prefix grows.
proof fn lemma_count_mono(s: Seq<usize>, k: int, u1: int, u2: int)
    requires
        0 <= u1 <= u2,
    ensures
        0 <= count_idx(s, k, u1) <= count_idx(s, k, u2),
    decreases u2 - u1,
{
    lemma_count_nonneg(s, k, u1);
    if u1 < u2 {
        lemma_count_mono(s, k, u1, u2 - 1);
    }
}

/// The shift count of any movable lies between zero and the number of
/// players considered.
proof fn lemma_shift_count_bounds(
    players: Seq<Occupied>,
    movs: Seq<Occupied>,
    walls: Seq<Occupied>,
    delta: GridLocation,
    k: int,
    upto: int,
)
    requires
        0 <= upto,
    ensures
        0 <= shift_count(players, movs, walls, delta, k, upto) <= upto,
    decreases upto,
{
    if upto > 0 {
        lemma_shift_count_bounds(players, movs, walls, delta, k, upto - 1);
    }
}

/// A scanned chain contains a movable entry exactly once if the entry
/// stands in the chain, and never otherwise.
proof fn lemma_chain_occurrences(
    movs: Seq<Occupied>,
    start: (int, int),
    delta: GridLocation,
    chain: Seq<usize>,
)
    requires
        is_unit_delta(delta),
        coords_unique(movs),
        is_chain_len(movs, start, delta, chain.len() as int),
        forall|j: int|
            0 <= j < chain.len() ==> (#[trigger] chain[j]) < movs.len() && loc_is(
                movs[chain[j] as int].1,
                ray(start, delta, j + 1),
            ),
    ensures
        forall|k: int|
            0 <= k < movs.len() ==> count_idx(chain, k, chain.len() as int) == (
            if in_chain(movs, start, delta, k) {
                1int
            } else {
                0int
            }),
{
    lemma_chain_len_is(movs, start, delta, chain.len() as int);
    assert forall|k: int| 0 <= k < movs.len() implies count_idx(chain, k, chain.len() as int) == (
    if in_chain(movs, start, delta, k) {
        1int
    } else {
        0int
    }) by {
        if in_chain(movs, start, delta, k) {
            let j = choose|j: int|
                1 <= j <= chain_len(movs, start, delta) && loc_is(
                    movs[k].1,
                    #[trigger] ray(start, delta, j),
                );
            lemma_at_coord_unique(movs, ray(start, delta, j), chain[j - 1] as int, k);
            assert forall|t: int| 0 <= t < chain.len() && t != j - 1 implies (#[trigger] chain[t])
                as int != k by {
                if chain[t] as int == k {
                    assert(loc_is(movs[k].1, ray(start, delta, t + 1)));
                    assert(ray(start, delta, t + 1) == ray(start, delta, j));
                    lemma_ray_injective(start, delta, t + 1, j);
                }
            }
            lemma_count_one(chain, k, chain.len() as int, j - 1);
        } else {
            assert forall|t: int| 0 <= t < chain.len() implies (#[trigger] chain[t]) as int
                != k by {
                if chain[t] as int == k {
                    assert(loc_is(movs[k].1, ray(start, delta, t + 1)));
                    assert(in_chain(movs, start, delta, k));
                }
            }
            lemma_count_zero(chain, k, chain.len() as int);
        }
    }
}

/// One resolution pass: resolve the direction request, build this
/// tick's occupancy index, scan one push chain per player (skipping
/// duplicate starting coordinates), and commit every unblocked chain.
///
/// With no direction newly pressed the pass returns `NoOp` at once,
/// without building any index. Otherwise each player `i` moves one
/// delta exactly when `succeeds` holds of it; each movable shifts one
/// delta per successful chain containing it (`shift_count`); the camera
/// anchor shifts one delta when at least one player moved; and the
/// outcome is `Moved` exactly when some player moved, else `Blocked`.
/// A blocked push changes nothing, so repeating it is idempotent.
pub fn attempt_move(gs: &mut GameState, req: DirectionRequest) -> (r: MoveOutcome)
    requires
        old(gs).wf(),
        old(gs).players@.len() <= 1000,
    ensures
        final(gs).walls@ == old(gs).walls@,
        final(gs).world_state == old(gs).world_state,
        final(gs).spawned == old(gs).spawned,
        final(gs).next_id == old(gs).next_id,
        match direction_delta(req) {
            None => r == MoveOutcome::NoOp && *final(gs) == *old(gs),
            Some(delta) => ({
                let players = old(gs).players@;
                let movs = old(gs).movables@;
                let walls = old(gs).walls@;
                &&& final(gs).players@.len() == players.len()
                &&& (forall|i: int|
                    0 <= i < players.len() ==> (#[trigger] final(gs).players@[i]).0
                        == players[i].0 && view_loc(final(gs).players@[i].1) == (
                    if succeeds(players, movs, walls, delta, i) {
                        ray(view_loc(players[i].1), delta, 1)
                    } else {
                        view_loc(players[i].1)
                    }))
                &&& final(gs).movables@.len() == movs.len()
                &&& (forall|k: int|
                    0 <= k < movs.len() ==> (#[trigger] final(gs).movables@[k]).0 == movs[k].0
                        && view_loc(final(gs).movables@[k].1) == ray(
                        view_loc(movs[k].1),
                        delta,
                        shift_count(players, movs, walls, delta, k, players.len() as int),
                    ))
                &&& view_loc(final(gs).camera) == (
                if any_success(players, movs, walls, delta) {
                    ray(view_loc(old(gs).camera), delta, 1)
                } else {
                    view_loc(old(gs).camera)
                })
                &&& r == (if any_success(players, movs, walls, delta) {
                    MoveOutcome::Moved
                } else {
                    MoveOutcome::Blocked
                })
            }),
        },
{
    let delta = match resolve_direction(req) {
        None => {
            return MoveOutcome::NoOp;
        },
        Some(d) => d,
    };
    let ghost players = gs.players@;
    let ghost movs = gs.movables@;
    let ghost walls = gs.walls@;
    let occ = OccupancyIndex::build(&gs.walls, &gs.movables);
    let mut to_move: Vec<usize> = Vec::new();
    let mut winners: Vec<usize> = Vec::new();
    let mut i: usize = 0;
    while i < gs.players.len()
        invariant
            *gs == *old(gs),
            players == gs.players@,
            movs == gs.movables@,
            walls == gs.walls@,
            occ.immovable@ == walls,
            occ.movable@ == movs,
            gs.wf(),
            is_unit_delta(delta),
            i <= players.len(),
            players.len() <= 1000,
            forall|t: int|
                0 <= t < winners@.len() ==> (#[trigger] winners@[t]) < i && succeeds(
                    players,
                    movs,
                    walls,
                    delta,
                    winners@[t] as int,
                ),
            forall|t1: int, t2: int|
                0 <= t1 < t2 < winners@.len() ==> winners@[t1] < winners@[t2],
            forall|j: int|
                0 <= j < i && #[trigger] succeeds(players, movs, walls, delta, j) ==> exists|
                    t: int,
                |
                    0 <= t < winners@.len() && (#[trigger] winners@[t]) as int == j,
            forall|t: int| 0 <= t < to_move@.len() ==> (#[trigger] to_move@[t]) < movs.len(),
            forall|k: int|
                0 <= k < movs.len() ==> count_idx(to_move@, k, to_move@.len() as int)
                    == shift_count(players, movs, walls, delta, k, i as int),
        decreases players.len() - i,
    {
        let pi = gs.players[i];
        let mut dup = false;
        let mut j: usize = 0;
        while j < i
            invariant
                j <= i,
                i < gs.players@.len(),
                players == gs.players@,
                pi == players[i as int],
                dup == exists|jj: int|
                    0 <= jj < j && (#[trigger] players[jj]).1 == players[i as int].1,
            decreases i - j,
        {
            if gs.players[j].1 == pi.1 {
                dup = true;
            }
            j = j + 1;
        }
        if !dup {
            let (chain, blocked) = resolve_chain(&occ, pi.1, delta);
            proof {
                lemma_chain_len_is(movs, view_loc(pi.1), delta, chain@.len() as int);
            }
            if !blocked {
                proof {
                    assert(succeeds(players, movs, walls, delta, i as int));
                }
                let ghost w0 = winners@;
                winners.push(i);
                let ghost prev_to_move = to_move@;
                let ghost chain_view = chain@;
                let mut chain = chain;
                to_move.append(&mut chain);
                proof {
                    assert(winners@ == w0.push(i));
                    assert forall|j: int|
                        0 <= j < i as int + 1 && #[trigger] succeeds(
                            players,
                            movs,
                            walls,
                            delta,
                            j,
                        ) implies exists|t: int|
                        0 <= t < winners@.len() && (#[trigger] winners@[t]) as int == j by {
                        if j == i as int {
                            assert(winners@[winners@.len() - 1] as int == j);
                        } else {
                            let t = choose|t: int|
                                0 <= t < w0.len() && (#[trigger] w0[t]) as int == j;
                            assert(winners@[t] as int == j);
                        }
                    }
                    assert(to_move@ == prev_to_move + chain_view);
                    lemma_chain_occurrences(movs, view_loc(pi.1), delta, chain_view);
                    assert forall|k: int| 0 <= k < movs.len() implies count_idx(
                        to_move@,
                        k,
                        to_move@.len() as int,
                    ) == shift_count(players, movs, walls, delta, k, i as int + 1) by {
                        lemma_count_concat(prev_to_move, chain_view, k);
                    }
                }
            } else {
                proof {
                    assert(!succeeds(players, movs, walls, delta, i as int));
                }
            }
        } else {
            proof {
                assert(dup_start(players, i as int));
                assert(!succeeds(players, movs, walls, delta, i as int));
            }
        }
        i = i + 1;
    }
    // Commit phase: shift every chained movable, then every successful
    // player, then the camera anchor. All chains were resolved against
    // the one occupancy index built at the start of the pass.
    let ghost full_count = to_move@;
    let mut t: usize = 0;
    while t < to_move.len()
        invariant
            to_move@ == full_count,
            is_unit_delta(delta),
            t <= to_move@.len(),
            players.len() <= 1000,
            forall|tt: int| 0 <= tt < to_move@.len() ==> (#[trigger] to_move@[tt]) < movs.len(),
            forall|k: int|
                0 <= k < movs.len() ==> count_idx(to_move@, k, to_move@.len() as int)
                    == shift_count(players, movs, walls, delta, k, players.len() as int),
            all_in_band(movs),
            gs.movables@.len() == movs.len(),
            forall|k: int|
                0 <= k < movs.len() ==> (#[trigger] gs.movables@[k]).0 == movs[k].0 && view_loc(
                    gs.movables@[k].1,
                ) == ray(view_loc(movs[k].1), delta, count_idx(to_move@, k, t as int)),
            gs.players@ == players,
            gs.walls@ == walls,
            gs.camera == old(gs).camera,
            gs.world_state == old(gs).world_state,
            gs.spawned == old(gs).spawned,
            gs.next_id == old(gs).next_id,
        decreases to_move@.len() - t,
    {
        let idx = to_move[t];
        let e = gs.movables[idx];
        proof {
            lemma_count_mono(to_move@, idx as int, t as int, to_move@.len() as int);
            lemma_shift_count_bounds(
                players,
                movs,
                walls,
                delta,
                idx as int,
                players.len() as int,
            );
            lemma_ray_band(
                view_loc(movs[idx as int].1),
                delta,
                count_idx(to_move@, idx as int, t as int),
            );
            lemma_ray_step(
                view_loc(movs[idx as int].1),
                delta,
                count_idx(to_move@, idx as int, t as int),
            );
        }
        gs.movables.set(idx, (e.0, e.1.add(delta)));
        proof {
            assert forall|k: int| 0 <= k < movs.len() implies (#[trigger] gs.movables@[k]).0
                == movs[k].0 && view_loc(gs.movables@[k].1) == ray(
                view_loc(movs[k].1),
                delta,
                count_idx(to_move@, k, t as int + 1),
            ) by {
                if k != idx as int {
                    assert(count_idx(to_move@, k, t as int + 1) == count_idx(
                        to_move@,
                        k,
                        t as int,
                    ));
                }
            }
        }
        t = t + 1;
    }
    // Commit the successful players.
    let ghost committed_movs = gs.movables@;
    let mut t: usize = 0;
    while t < winners.len()
        invariant
            is_unit_delta(delta),
            t <= winners@.len(),
            players.len() <= 1000,
            all_in_band(players),
            forall|tt: int|
                0 <= tt < winners@.len() ==> (#[trigger] winners@[tt]) < players.len()
                    && succeeds(players, movs, walls, delta, winners@[tt] as int),
            forall|t1: int, t2: int|
                0 <= t1 < t2 < winners@.len() ==> winners@[t1] < winners@[t2],
            gs.players@.len() == players.len(),
            forall|jj: int|
                0 <= jj < players.len() ==> (#[trigger] gs.players@[jj]).0 == players[jj].0
                    && view_loc(gs.players@[jj].1) == (
                if exists|tt: int|
                    0 <= tt < t && (#[trigger] winners@[tt]) as int == jj {
                    ray(view_loc(players[jj].1), delta, 1)
                } else {
                    view_loc(players[jj].1)
                }),
            gs.movables@ == committed_movs,
            gs.walls@ == walls,
            gs.camera == old(gs).camera,
            gs.world_state == old(gs).world_state,
            gs.spawned == old(gs).spawned,
            gs.next_id == old(gs).next_id,
        decreases winners@.len() - t,
    {
        let w = winners[t];
        let p = gs.players[w];
        proof {
            assert forall|tt: int| 0 <= tt < t implies (#[trigger] winners@[tt]) as int
                != w as int by {
                assert(winners@[tt] < winners@[t as int]);
            }
            assert(view_loc(p.1) == view_loc(players[w as int].1));
            lemma_ray_zero_one(view_loc(players[w as int].1), delta);
        }
        gs.players.set(w, (p.0, p.1.add(delta)));
        proof {
            assert forall|jj: int| 0 <= jj < players.len() implies (#[trigger] gs.players@[jj]).0
                == players[jj].0 && view_loc(gs.players@[jj].1) == (
            if exists|tt: int|
                0 <= tt < t + 1 && (#[trigger] winners@[tt]) as int == jj {
                ray(view_loc(players[jj].1), delta, 1)
            } else {
                view_loc(players[jj].1)
            }) by {
                if jj == w as int {
                    assert(0 <= t < t + 1 && winners@[t as int] as int == jj);
                } else {
                    if exists|tt: int| 0 <= tt < t && (#[trigger] winners@[tt]) as int == jj {
                        let tt = choose|tt: int|
                            0 <= tt < t && (#[trigger] winners@[tt]) as int == jj;
                        assert(0 <= tt < t + 1 && winners@[tt] as int == jj);
                    }
                }
            }
        }
        t = t + 1;
    }
    proof {
        assert forall|jj: int|
            0 <= jj < players.len() implies ((exists|tt: int|
            0 <= tt < winners@.len() && (#[trigger] winners@[tt]) as int == jj) <==> succeeds(
            players,
            movs,
            walls,
            delta,
            jj,
        )) by {}
    }
    let moved = winners.len() > 0;
    proof {
        if moved {
            assert(succeeds(players, movs, walls, delta, winners@[0] as int));
            assert(any_success(players, movs, walls, delta));
        } else {
            if any_success(players, movs, walls, delta) {
                let ii = choose|ii: int|
                    0 <= ii < players.len() && #[trigger] succeeds(
                        players,
                        movs,
                        walls,
                        delta,
                        ii,
                    );
                assert(exists|tt: int|
                    0 <= tt < winners@.len() && (#[trigger] winners@[tt]) as int == ii);
                assert(false);
            }
        }
        lemma_ray_zero_one(view_loc(old(gs).camera), delta);
    }
    if moved {
        let cam = gs.camera;
        gs.camera = cam.add(delta);
        MoveOutcome::Moved
    } else {
        MoveOutcome::Blocked
    }
}

/// Law: for a chain of `n` unobstructed movables ahead of the one
/// player in direction `delta` — movables at every coordinate 1 through
/// `n` steps out, and neither a movable nor a wall `n + 1` steps out —
/// the move succeeds: by `attempt_move`'s contract the player and every
/// one of the `n` chain members shift by exactly one `delta`.
pub proof fn lemma_push_chain_moves(
    players: Seq<Occupied>,
    movs: Seq<Occupied>,
    walls: Seq<Occupied>,
    delta: GridLocation,
    n: int,
)
    requires
        is_unit_delta(delta),
        coords_unique(movs),
        players.len() == 1,
        0 <= n,
        forall|j: int|
            1 <= j <= n ==> at_coord(movs, #[trigger] ray(view_loc(players[0].1), delta, j)),
        !at_coord(movs, ray(view_loc(players[0].1), delta, n + 1)),
        !at_coord(walls, ray(view_loc(players[0].1), delta, n + 1)),
    ensures
        chain_len(movs, view_loc(players[0].1), delta) == n,
        succeeds(players, movs, walls, delta, 0),
        any_success(players, movs, walls, delta),
        forall|k: int|
            0 <= k < movs.len() ==> shift_count(players, movs, walls, delta, k, 1) == (
            if in_chain(movs, view_loc(players[0].1), delta, k) {
                1int
            } else {
                0int
            }),
        forall|k: int, j: int|
            0 <= k < movs.len() && 1 <= j <= n && loc_is(
                movs[k].1,
                #[trigger] ray(view_loc(players[0].1), delta, j),
            ) ==> #[trigger] shift_count(players, movs, walls, delta, k, 1) == 1,
{
    let start = view_loc(players[0].1);
    lemma_chain_len_is(movs, start, delta, n);
    assert(succeeds(players, movs, walls, delta, 0));
    assert(any_success(players, movs, walls, delta));
    assert forall|k: int| 0 <= k < movs.len() implies shift_count(
        players,
        movs,
        walls,
        delta,
        k,
        1,
    ) == (if in_chain(movs, start, delta, k) {
        1int
    } else {
        0int
    }) by {
        assert(shift_count(players, movs, walls, delta, k, 0) == 0);
    }
    assert forall|k: int, j: int|
        0 <= k < movs.len() && 1 <= j <= n && loc_is(
            movs[k].1,
            #[trigger] ray(start, delta, j),
        ) implies #[trigger] shift_count(players, movs, walls, delta, k, 1) == 1 by {
        assert(in_chain(movs, start, delta, k));
    }
}

/// Law: if a wall occupies the coordinate immediately past the chain of
/// `n` movables ahead of the one player, nothing moves: the player
/// fails, every movable's shift count is zero, and by `attempt_move`'s
/// contract no coordinate changes and the outcome is `Blocked`.
pub proof fn lemma_push_chain_blocked(
    players: Seq<Occupied>,
    movs: Seq<Occupied>,
    walls: Seq<Occupied>,
    delta: GridLocation,
    n: int,
)
    requires
        is_unit_delta(delta),
        coords_unique(movs),
        players.len() == 1,
        0 <= n,
        forall|j: int|
            1 <= j <= n ==> at_coord(movs, #[trigger] ray(view_loc(players[0].1), delta, j)),
        !at_coord(movs, ray(view_loc(players[0].1), delta, n + 1)),
        at_coord(walls, ray(view_loc(players[0].1), delta, n + 1)),
    ensures
        chain_len(movs, view_loc(players[0].1), delta) == n,
        !succeeds(players, movs, walls, delta, 0),
        !any_success(players, movs, walls, delta),
        forall|k: int| 0 <= k < movs.len() ==> shift_count(players, movs, walls, delta, k, 1) == 0,
{
    let start = view_loc(players[0].1);
    lemma_chain_len_is(movs, start, delta, n);
    assert(!succeeds(players, movs, walls, delta, 0));
    assert forall|i: int|
        0 <= i < players.len() implies !succeeds(players, movs, walls, delta, i) by {}
    assert forall|k: int| 0 <= k < movs.len() implies shift_count(
        players,
        movs,
        walls,
        delta,
        k,
        1,
    ) == 0 by {
        assert(shift_count(players, movs, walls, delta, k, 0) == 0);
    }
}

} // verus!
