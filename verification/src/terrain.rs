//! Deterministic terrain generation over a chunked coordinate space.
//!
//! The visible world is a 4 x 4 arrangement of chunks (chunk indices -2..2
//! on each axis), each covering a 16 x 16 block of tiles; the absolute
//! coordinate of a tile is `chunk_index * 16 + local_offset` with
//! `local_offset` in `[-8, 8)`. A tile becomes a wall exactly when a
//! deterministic scalar noise field, sampled at the tile and rescaled by
//! `score = noise * 16 + 8`, exceeds the threshold `4.8` — except the
//! designated player-spawn coordinate, which is never a wall.
//!
//! No floating point participates: the noise is an integer-valued field
//! (seeded lattice corner values in `[0, 1000]` thousandths, bilinearly
//! interpolated with lattice spacing 16), and the score comparison is
//! carried out with both sides scaled by `128000`. Any deterministic,
//! locally continuous scalar field satisfies the generator's contract;
//! this one is a pure function of the seed and the coordinate, so
//! regenerating with the same seed reproduces the identical wall set.

use vstd::arithmetic::div_mod::{
    lemma_fundamental_div_mod, lemma_fundamental_div_mod_converse,
    lemma_mod_division_less_than_divisor,
};
use vstd::arithmetic::mul::lemma_mul_upper_bound;
use vstd::prelude::*;

use crate::grid::{player_start, spawn_coord, GridLocation};

verus! {

/// The fixed-point scale of the placement score: one unit of noise
/// amplitude. A raw interpolated sample lies in `[0, 2 * SCORE_SCALE]`
/// and stands for a noise value in `[-1, 1]`.
pub const SCORE_SCALE: i64 = 128000;

/// `4.8 * SCORE_SCALE`.
pub const WALL_THRESHOLD_SCALED: i64 = 614400;

/// The value of one lattice corner of the noise field: a hash of the seed
/// and the (shifted, non-negative) lattice cell indices, in `[0, 1000]`.
pub open spec fn corner_value(seed: u32, ux: int, uy: int) -> int {
    let a = (seed + ux * 668265263 + uy * 374761393) % 0x100000000;
    let b = (a * 1274126177) % 0x100000000;
    let c = (b * 2654435761) % 0x100000000;
    (b + c) % 1001
}

/// The raw noise sample at tile `(x, y)`: corner values of the enclosing
/// 16 x 16 lattice cell, bilinearly interpolated. Lies in `[0, 256000]`,
/// standing for a noise value in `[-1, 1]` at scale `SCORE_SCALE`.
pub open spec fn raw_noise(seed: u32, x: int, y: int) -> int {
    let sx = x + 1024;
    let sy = y + 1024;
    let cx = sx / 16;
    let cy = sy / 16;
    let fx = sx % 16;
    let fy = sy % 16;
    let v00 = corner_value(seed, cx, cy);
    let v10 = corner_value(seed, cx + 1, cy);
    let v01 = corner_value(seed, cx, cy + 1);
    let v11 = corner_value(seed, cx + 1, cy + 1);
    (v00 * (16 - fx) + v10 * fx) * (16 - fy) + (v01 * (16 - fx) + v11 * fx) * fy
}

/// The placement score at tile `(x, y)`, scaled by `SCORE_SCALE`:
/// `score = noise * 16 + 8` with the noise in `[-1, 1]`.
pub open spec fn wall_score(seed: u32, x: int, y: int) -> int {
    16 * raw_noise(seed, x, y) - 8 * SCORE_SCALE
}

/// A tile's noise score clears the wall threshold.
pub open spec fn is_wall_at(seed: u32, x: int, y: int) -> bool {
    wall_score(seed, x, y) > WALL_THRESHOLD_SCALED
}

/// A wall is placed at `(x, y)`: the score clears the threshold and the
/// tile is not the player spawn.
pub open spec fn placed(seed: u32, x: int, y: int) -> bool {
    is_wall_at(seed, x, y) && !(x == spawn_coord().0 && y == spawn_coord().1)
}

/// Compute one lattice corner value; mirrors `corner_value` exactly.
fn corner(seed: u32, ux: u32, uy: u32) -> (r: u32)
    requires
        ux < 0x100000,
        uy < 0x100000,
    ensures
        r == corner_value(seed, ux as int, uy as int),
        r <= 1000,
{
    let a: u64 = ((seed as u64) + (ux as u64) * 668265263 + (uy as u64) * 374761393) % 0x100000000;
    let b: u64 = (a * 1274126177) % 0x100000000;
    let c: u64 = (b * 2654435761) % 0x100000000;
    ((b + c) % 1001) as u32
}

/// Decide whether the noise field places a wall at tile `(x, y)`.
fn wall_at(seed: u32, x: i32, y: i32) -> (r: bool)
    requires
        -1024 < x < 1024,
        -1024 < y < 1024,
    ensures
        r == is_wall_at(seed, x as int, y as int),
{
    let sx: u32 = (x + 1024) as u32;
    let sy: u32 = (y + 1024) as u32;
    let cx: u32 = sx / 16;
    let cy: u32 = sy / 16;
    let fx: u64 = (sx % 16) as u64;
    let fy: u64 = (sy % 16) as u64;
    let v00 = corner(seed, cx, cy) as u64;
    let v10 = corner(seed, cx + 1, cy) as u64;
    let v01 = corner(seed, cx, cy + 1) as u64;
    let v11 = corner(seed, cx + 1, cy + 1) as u64;
    proof {
        lemma_mul_upper_bound(v00 as int, 1000, 16 - fx as int, 16);
        lemma_mul_upper_bound(v10 as int, 1000, fx as int, 16);
        lemma_mul_upper_bound(v01 as int, 1000, 16 - fx as int, 16);
        lemma_mul_upper_bound(v11 as int, 1000, fx as int, 16);
    }
    let vx0: u64 = v00 * (16 - fx) + v10 * fx;
    let vx1: u64 = v01 * (16 - fx) + v11 * fx;
    proof {
        lemma_mul_upper_bound(vx0 as int, 32000, 16 - fy as int, 16);
        lemma_mul_upper_bound(vx1 as int, 32000, fy as int, 16);
    }
    let raw: u64 = vx0 * (16 - fy) + vx1 * fy;
    let score: i64 = 16 * (raw as i64) - 8 * SCORE_SCALE;
    score > WALL_THRESHOLD_SCALED
}

/// The tile visited at step `t` (in `[0, 256)`) of a chunk scan: local
/// offsets run row by row through `[-8, 8) x [-8, 8)`.
pub open spec fn chunk_tile(cx: int, cy: int, t: int) -> (int, int) {
    (cx * 16 + (t % 16 - 8), cy * 16 + (t / 16 - 8))
}

/// The walls placed by the first `t` steps of the scan of chunk
/// `(cx, cy)`, in scan order.
pub open spec fn chunk_walls_upto(seed: u32, cx: int, cy: int, t: int) -> Seq<GridLocation>
    decreases t,
{
    if t <= 0 {
        Seq::empty()
    } else {
        let c = chunk_tile(cx, cy, t - 1);
        chunk_walls_upto(seed, cx, cy, t - 1) + if placed(seed, c.0, c.1) {
            seq![GridLocation(c.0 as i32, c.1 as i32)]
        } else {
            Seq::empty()
        }
    }
}

/// All walls of chunk `(cx, cy)`, in scan order.
pub open spec fn chunk_walls(seed: u32, cx: int, cy: int) -> Seq<GridLocation> {
    chunk_walls_upto(seed, cx, cy, 256)
}

/// The walls of the first `c` chunks (chunks scanned row by row through
/// `[-2, 2) x [-2, 2)`), in scan order.
pub open spec fn walls_upto_chunk(seed: u32, c: int) -> Seq<GridLocation>
    decreases c,
{
    if c <= 0 {
        Seq::empty()
    } else {
        walls_upto_chunk(seed, c - 1) + chunk_walls(seed, (c - 1) % 4 - 2, (c - 1) / 4 - 2)
    }
}

/// The complete wall set of a generation run with `seed`: a pure function
/// of the seed alone, so every level index shares one terrain field.
pub open spec fn wall_seq(seed: u32) -> Seq<GridLocation> {
    walls_upto_chunk(seed, 16)
}

/// Generate the walls of one 16 x 16 chunk.
pub fn generate_chunk(chunk_x: i32, chunk_y: i32, seed: u32) -> (walls: Vec<GridLocation>)
    requires
        -2 <= chunk_x < 2,
        -2 <= chunk_y < 2,
    ensures
        walls@ == chunk_walls(seed, chunk_x as int, chunk_y as int),
{
    let mut walls: Vec<GridLocation> = Vec::new();
    let spawn = player_start();
    let mut t: usize = 0;
    while t < 256
        invariant
            t <= 256,
            -2 <= chunk_x < 2,
            -2 <= chunk_y < 2,
            spawn == spawn_coord(),
            walls@ == chunk_walls_upto(seed, chunk_x as int, chunk_y as int, t as int),
        decreases 256 - t,
    {
        let lx: i32 = (t % 16) as i32 - 8;
        let ly: i32 = (t / 16) as i32 - 8;
        let x: i32 = chunk_x * 16 + lx;
        let y: i32 = chunk_y * 16 + ly;
        proof {
            assert(chunk_tile(chunk_x as int, chunk_y as int, t as int) == (x as int, y as int));
        }
        if !(x == spawn.0 && y == spawn.1) && wall_at(seed, x, y) {
            walls.push(GridLocation(x, y));
        }
        proof {
            assert(walls@ =~= chunk_walls_upto(
                seed,
                chunk_x as int,
                chunk_y as int,
                t as int + 1,
            ));
        }
        t = t + 1;
    }
    walls
}

/// Run the generator: the complete wall coordinate set for the requested
/// level. The single process-wide seed is reused for every level, so the
/// requested level index does not influence the output — distinct level
/// indices share one terrain field (documented behavior).
pub fn generate(seed: u32, _requested_level: usize) -> (walls: Vec<GridLocation>)
    ensures
        walls@ == wall_seq(seed),
{
    let mut walls: Vec<GridLocation> = Vec::new();
    let mut c: usize = 0;
    while c < 16
        invariant
            c <= 16,
            walls@ == walls_upto_chunk(seed, c as int),
        decreases 16 - c,
    {
        let chunk_x: i32 = (c % 4) as i32 - 2;
        let chunk_y: i32 = (c / 4) as i32 - 2;
        let mut chunk = generate_chunk(chunk_x, chunk_y, seed);
        walls.append(&mut chunk);
        proof {
            assert(walls@ =~= walls_upto_chunk(seed, c as int + 1));
        }
        c = c + 1;
    }
    walls
}

/// Does tile `l` lie in the 16 x 16 block of chunk `(cx, cy)`?
pub open spec fn in_chunk_box(l: GridLocation, cx: int, cy: int) -> bool {
    cx * 16 - 8 <= l.0 < cx * 16 + 8 && cy * 16 - 8 <= l.1 < cy * 16 + 8
}

/// The step at which the scan of chunk `(cx, cy)` visits tile `l`.
pub open spec fn chunk_enc(l: GridLocation, cx: int, cy: int) -> int {
    (l.1 - (cy * 16 - 8)) * 16 + (l.0 - (cx * 16 - 8))
}

/// The chunk column tile `l` belongs to.
pub open spec fn tile_cx(l: GridLocation) -> int {
    (l.0 + 8) / 16
}

/// The chunk row tile `l` belongs to.
pub open spec fn tile_cy(l: GridLocation) -> int {
    (l.1 + 8) / 16
}

/// The step at which the whole generation run visits tile `l`. Distinct
/// tiles have distinct ranks, so a rank-sorted sequence never repeats a
/// coordinate.
pub open spec fn scan_rank(l: GridLocation) -> int {
    ((tile_cy(l) + 2) * 4 + (tile_cx(l) + 2)) * 256 + chunk_enc(l, tile_cx(l), tile_cy(l))
}

/// A tile inside the block of chunk `(cx, cy)` has that chunk's column
/// and row.
proof fn lemma_box_determines_chunk(l: GridLocation, cx: int, cy: int)
    requires
        in_chunk_box(l, cx, cy),
    ensures
        tile_cx(l) == cx,
        tile_cy(l) == cy,
{
    lemma_fundamental_div_mod_converse(l.0 + 8, 16, cx, l.0 + 8 - cx * 16);
    lemma_fundamental_div_mod_converse(l.1 + 8, 16, cy, l.1 + 8 - cy * 16);
}

/// Every wall a chunk scan has produced so far lies in that chunk's
/// block, was visited at a step below `t`, in strictly increasing step
/// order, satisfies the placement rule, and is not the spawn tile.
proof fn lemma_chunk_walls_upto_props(seed: u32, cx: int, cy: int, t: int)
    requires
        -2 <= cx < 2,
        -2 <= cy < 2,
        0 <= t <= 256,
    ensures
        ({
            let s = chunk_walls_upto(seed, cx, cy, t);
            &&& s.len() <= t
            &&& forall|k: int|
                0 <= k < s.len() ==> in_chunk_box(#[trigger] s[k], cx, cy) && chunk_enc(
                    s[k],
                    cx,
                    cy,
                ) < t && s[k] != spawn_coord() && placed(seed, s[k].0 as int, s[k].1 as int)
            &&& forall|k1: int, k2: int|
                0 <= k1 < k2 < s.len() ==> chunk_enc(#[trigger] s[k1], cx, cy) < chunk_enc(
                    #[trigger] s[k2],
                    cx,
                    cy,
                )
            &&& forall|u: int|
                0 <= u < t && placed(
                    seed,
                    (#[trigger] chunk_tile(cx, cy, u)).0,
                    chunk_tile(cx, cy, u).1,
                ) ==> s.contains(
                    GridLocation(chunk_tile(cx, cy, u).0 as i32, chunk_tile(cx, cy, u).1 as i32),
                )
        }),
    decreases t,
{
    if t > 0 {
        lemma_chunk_walls_upto_props(seed, cx, cy, t - 1);
        lemma_fundamental_div_mod(t - 1, 16);
        lemma_mod_division_less_than_divisor(t - 1, 16);
        let c = chunk_tile(cx, cy, t - 1);
        let prev = chunk_walls_upto(seed, cx, cy, t - 1);
        let s = chunk_walls_upto(seed, cx, cy, t);
        if placed(seed, c.0, c.1) {
            let l = GridLocation(c.0 as i32, c.1 as i32);
            assert(s == prev + seq![l]);
            assert(in_chunk_box(l, cx, cy));
            assert(chunk_enc(l, cx, cy) == t - 1);
            assert(l != spawn_coord());
            assert(s[s.len() - 1] == l);
        } else {
            assert(s == prev + Seq::<GridLocation>::empty());
            assert(s =~= prev);
        }
        assert forall|u: int|
            0 <= u < t && placed(
                seed,
                (#[trigger] chunk_tile(cx, cy, u)).0,
                chunk_tile(cx, cy, u).1,
            ) implies s.contains(
            GridLocation(chunk_tile(cx, cy, u).0 as i32, chunk_tile(cx, cy, u).1 as i32),
        ) by {
            let e = GridLocation(chunk_tile(cx, cy, u).0 as i32, chunk_tile(cx, cy, u).1 as i32);
            if u < t - 1 {
                assert(prev.contains(e));
                let k = choose|k: int| 0 <= k < prev.len() && prev[k] == e;
                assert(s[k] == e);
            } else {
                assert(s[s.len() - 1] == e);
            }
        }
    }
}

/// Every wall the generation run has produced through the first `c`
/// chunks lies in the covered coordinate range, was visited at a rank
/// below `c * 256`, in strictly increasing rank order, satisfies the
/// placement rule, and is not the spawn tile; in particular no
/// coordinate repeats.
proof fn lemma_walls_upto_chunk_props(seed: u32, c: int)
    requires
        0 <= c <= 16,
    ensures
        ({
            let s = walls_upto_chunk(seed, c);
            &&& s.len() <= c * 256
            &&& forall|k: int|
                0 <= k < s.len() ==> -40 <= (#[trigger] s[k]).0 < 24 && -40 <= s[k].1 < 24 && s[k]
                    != spawn_coord() && placed(seed, s[k].0 as int, s[k].1 as int) && scan_rank(
                    s[k],
                ) < c * 256
            &&& forall|k1: int, k2: int|
                0 <= k1 < k2 < s.len() ==> scan_rank(#[trigger] s[k1]) < scan_rank(
                    #[trigger] s[k2],
                )
            &&& forall|k1: int, k2: int|
                0 <= k1 < k2 < s.len() ==> #[trigger] s[k1] != #[trigger] s[k2]
            &&& forall|ci: int, u: int|
                0 <= ci < c && 0 <= u < 256 && placed(
                    seed,
                    (#[trigger] chunk_tile(ci % 4 - 2, ci / 4 - 2, u)).0,
                    chunk_tile(ci % 4 - 2, ci / 4 - 2, u).1,
                ) ==> s.contains(
                    GridLocation(
                        chunk_tile(ci % 4 - 2, ci / 4 - 2, u).0 as i32,
                        chunk_tile(ci % 4 - 2, ci / 4 - 2, u).1 as i32,
                    ),
                )
        }),
    decreases c,
{
    if c > 0 {
        lemma_walls_upto_chunk_props(seed, c - 1);
        lemma_fundamental_div_mod(c - 1, 4);
        lemma_mod_division_less_than_divisor(c - 1, 4);
        let ccx = (c - 1) % 4 - 2;
        let ccy = (c - 1) / 4 - 2;
        lemma_chunk_walls_upto_props(seed, ccx, ccy, 256);
        let prev = walls_upto_chunk(seed, c - 1);
        let seg = chunk_walls(seed, ccx, ccy);
        let s = walls_upto_chunk(seed, c);
        assert(s == prev + seg);
        assert forall|k: int| 0 <= k < seg.len() implies scan_rank(#[trigger] seg[k]) == (c - 1)
            * 256 + chunk_enc(seg[k], ccx, ccy) && -40 <= seg[k].0 < 24 && -40 <= seg[k].1
            < 24 by {
            lemma_box_determines_chunk(seg[k], ccx, ccy);
        }
        assert forall|k1: int, k2: int| 0 <= k1 < k2 < s.len() implies scan_rank(#[trigger] s[k1])
            < scan_rank(#[trigger] s[k2]) by {
            if k2 >= prev.len() {
                assert(s[k2] == seg[k2 - prev.len()]);
            }
            if k1 >= prev.len() {
                assert(s[k1] == seg[k1 - prev.len()]);
            }
        }
        assert forall|k1: int, k2: int| 0 <= k1 < k2 < s.len() implies #[trigger] s[k1]
            != #[trigger] s[k2] by {
            assert(scan_rank(s[k1]) < scan_rank(s[k2]));
        }
        assert forall|ci: int, u: int|
            0 <= ci < c && 0 <= u < 256 && placed(
                seed,
                (#[trigger] chunk_tile(ci % 4 - 2, ci / 4 - 2, u)).0,
                chunk_tile(ci % 4 - 2, ci / 4 - 2, u).1,
            ) implies s.contains(
            GridLocation(
                chunk_tile(ci % 4 - 2, ci / 4 - 2, u).0 as i32,
                chunk_tile(ci % 4 - 2, ci / 4 - 2, u).1 as i32,
            ),
        ) by {
            let e = GridLocation(
                chunk_tile(ci % 4 - 2, ci / 4 - 2, u).0 as i32,
                chunk_tile(ci % 4 - 2, ci / 4 - 2, u).1 as i32,
            );
            if ci < c - 1 {
                assert(prev.contains(e));
                let k = choose|k: int| 0 <= k < prev.len() && prev[k] == e;
                assert(s[k] == e);
            } else {
                assert(seg.contains(e));
                let k = choose|k: int| 0 <= k < seg.len() && seg[k] == e;
                assert(s[prev.len() + k] == e);
            }
        }
    }
}

/// Law: the generated wall set is exactly the placement rule over the
/// covered coordinate range. A coordinate appears in the wall set if
/// and only if it lies in the scanned chunk range, its noise score
/// clears the threshold, and it is not the player spawn.
pub proof fn lemma_wall_seq_characterization(seed: u32, l: GridLocation)
    ensures
        wall_seq(seed).contains(l) <==> (-40 <= l.0 < 24 && -40 <= l.1 < 24 && placed(
            seed,
            l.0 as int,
            l.1 as int,
        )),
{
    lemma_walls_upto_chunk_props(seed, 16);
    let s = wall_seq(seed);
    if s.contains(l) {
        let k = choose|k: int| 0 <= k < s.len() && s[k] == l;
        assert(-40 <= l.0 < 24 && -40 <= l.1 < 24 && placed(seed, l.0 as int, l.1 as int));
    }
    if -40 <= l.0 < 24 && -40 <= l.1 < 24 && placed(seed, l.0 as int, l.1 as int) {
        let cx = tile_cx(l);
        let cy = tile_cy(l);
        let rx = (l.0 + 8) % 16;
        let ry = (l.1 + 8) % 16;
        lemma_fundamental_div_mod(l.0 + 8, 16);
        lemma_fundamental_div_mod(l.1 + 8, 16);
        lemma_mod_division_less_than_divisor(l.0 + 8, 16);
        lemma_mod_division_less_than_divisor(l.1 + 8, 16);
        assert(-2 <= cx < 2 && -2 <= cy < 2) by {
            lemma_fundamental_div_mod_converse(-32, 16, -2, 0);
            lemma_fundamental_div_mod_converse(31, 16, 1, 15);
            vstd::arithmetic::div_mod::lemma_div_is_ordered(-32, l.0 + 8, 16);
            vstd::arithmetic::div_mod::lemma_div_is_ordered(l.0 + 8, 31, 16);
            vstd::arithmetic::div_mod::lemma_div_is_ordered(-32, l.1 + 8, 16);
            vstd::arithmetic::div_mod::lemma_div_is_ordered(l.1 + 8, 31, 16);
        }
        let u = ry * 16 + rx;
        lemma_fundamental_div_mod_converse(u, 16, ry, rx);
        assert(chunk_tile(cx, cy, u) == (l.0 as int, l.1 as int));
        let ci = (cy + 2) * 4 + (cx + 2);
        lemma_fundamental_div_mod_converse(ci, 4, cy + 2, cx + 2);
        assert(ci % 4 - 2 == cx && ci / 4 - 2 == cy);
        assert(0 <= ci < 16 && 0 <= u < 256);
        assert(s.contains(GridLocation(chunk_tile(cx, cy, u).0 as i32, chunk_tile(cx, cy, u).1 as i32)));
        assert(GridLocation(chunk_tile(cx, cy, u).0 as i32, chunk_tile(cx, cy, u).1 as i32) == l);
    }
}

/// The wall set of a generation run never repeats a coordinate, stays in
/// the covered chunk range, and obeys the placement rule at every tile.
pub proof fn lemma_wall_seq_props(seed: u32)
    ensures
        wall_seq(seed).len() <= 4096,
        forall|k: int|
            0 <= k < wall_seq(seed).len() ==> -40 <= (#[trigger] wall_seq(seed)[k]).0 < 24 && -40
                <= wall_seq(seed)[k].1 < 24 && placed(
                seed,
                wall_seq(seed)[k].0 as int,
                wall_seq(seed)[k].1 as int,
            ),
        forall|k1: int, k2: int|
            0 <= k1 < k2 < wall_seq(seed).len() ==> #[trigger] wall_seq(seed)[k1]
                != #[trigger] wall_seq(seed)[k2],
{
    lemma_walls_upto_chunk_props(seed, 16);
}

/// Law: generation is deterministic. Two generation runs with the same
/// seed return identical wall coordinate sequences — whatever level
/// indices were requested, since the wall set is a function of the seed
/// alone.
pub proof fn lemma_generate_deterministic(
    seed: u32,
    first: Seq<GridLocation>,
    second: Seq<GridLocation>,
)
    requires
        first == wall_seq(seed),
        second == wall_seq(seed),
    ensures
        first == second,
{
}

/// Law: the player spawn coordinate is never part of any generated wall
/// set, for any seed.
pub proof fn lemma_spawn_never_walled(seed: u32)
    ensures
        forall|k: int| 0 <= k < wall_seq(seed).len() ==> #[trigger] wall_seq(seed)[k]
            != spawn_coord(),
{
    lemma_walls_upto_chunk_props(seed, 16);
}

} // verus!
