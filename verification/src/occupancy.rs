//! The per-tick occupancy index.
//!
//! At the start of each resolution pass the movement resolver builds two
//! ephemeral coordinate-to-occupant mappings, one from the wall entities
//! (immovable) and one from the movable entities. The index is rebuilt
//! every tick a move is attempted and never persisted, so it is kept as a
//! plain pair of entity lists searched by coordinate.

use vstd::prelude::*;

use crate::grid::GridLocation;

verus! {

/// An entity identifier paired with the coordinate it occupies.
pub type Occupied = (u64, GridLocation);

/// Does `l` sit at the mathematical coordinate `c`?
pub open spec fn loc_is(l: GridLocation, c: (int, int)) -> bool {
    l.0 == c.0 && l.1 == c.1
}

/// The mathematical coordinate of `l`.
pub open spec fn view_loc(l: GridLocation) -> (int, int) {
    (l.0 as int, l.1 as int)
}

/// Some entry of `s` occupies coordinate `c`.
pub open spec fn at_coord(s: Seq<Occupied>, c: (int, int)) -> bool {
    exists|k: int| 0 <= k < s.len() && loc_is(#[trigger] s[k].1, c)
}

/// Coordinates the resolver accepts: comfortably inside the `i32`
/// range, so no shift or scan of one tick can overflow.
pub open spec fn in_band(l: GridLocation) -> bool {
    -1_000_000_000 <= l.0 <= 1_000_000_000 && -1_000_000_000 <= l.1 <= 1_000_000_000
}

/// Every entry of `s` occupies an in-band coordinate.
pub open spec fn all_in_band(s: Seq<Occupied>) -> bool {
    forall|k: int| 0 <= k < s.len() ==> in_band((#[trigger] s[k]).1)
}

/// No two entries of `s` occupy the same coordinate.
pub open spec fn coords_unique(s: Seq<Occupied>) -> bool {
    forall|i: int, j: int| 0 <= i < j < s.len() ==> (#[trigger] s[i]).1 != (#[trigger] s[j]).1
}

/// Search `list` for an entry at coordinate `c`.
pub fn find_at(list: &Vec<Occupied>, c: GridLocation) -> (r: Option<usize>)
    ensures
        match r {
            Some(k) => k < list.len() && list@[k as int].1 == c,
            None => !at_coord(list@, view_loc(c)),
        },
{
    let mut k: usize = 0;
    while k < list.len()
        invariant
            k <= list.len(),
            forall|j: int| 0 <= j < k ==> (#[trigger] list@[j]).1 != c,
        decreases list.len() - k,
    {
        if list[k].1 == c {
            return Some(k);
        }
        k = k + 1;
    }
    None
}

/// What occupies a queried coordinate.
#[derive(Clone, Copy, PartialEq, Eq, Structural, Debug)]
pub enum Occupant {
    /// Nothing stands at the coordinate.
    Vacant,
    /// A movable entity, by id.
    Movable(u64),
    /// An immovable (wall) entity, by id.
    Immovable(u64),
}

/// The ephemeral per-tick lookup from coordinate to occupant, split into
/// an immovable map (walls) and a movable map.
pub struct OccupancyIndex {
    pub immovable: Vec<Occupied>,
    pub movable: Vec<Occupied>,
}

impl OccupancyIndex {
    /// Each of the two maps binds every coordinate at most once.
    pub open spec fn wf(self) -> bool {
        coords_unique(self.immovable@) && coords_unique(self.movable@)
    }

    /// Build the index for this tick from the current wall and movable
    /// entity lists.
    pub fn build(walls: &Vec<Occupied>, movables: &Vec<Occupied>) -> (r: OccupancyIndex)
        ensures
            r.immovable@ == walls@,
            r.movable@ == movables@,
    {
        OccupancyIndex { immovable: copy_list(walls), movable: copy_list(movables) }
    }

    /// Report what occupies coordinate `c`: a wall wins over a movable if
    /// ever both maps bind the same coordinate.
    pub fn query_occupant(&self, c: GridLocation) -> (r: Occupant)
        ensures
            match r {
                Occupant::Immovable(id) => exists|k: int|
                    0 <= k < self.immovable@.len() && (#[trigger] self.immovable@[k]) == (
                    id,
                    c,
                ),
                Occupant::Movable(id) => !at_coord(self.immovable@, view_loc(c))
                    && exists|k: int|
                    0 <= k < self.movable@.len() && (#[trigger] self.movable@[k]) == (id, c),
                Occupant::Vacant => !at_coord(self.immovable@, view_loc(c)) && !at_coord(
                    self.movable@,
                    view_loc(c),
                ),
            },
    {
        match find_at(&self.immovable, c) {
            Some(k) => Occupant::Immovable(self.immovable[k].0),
            None => match find_at(&self.movable, c) {
                Some(k) => Occupant::Movable(self.movable[k].0),
                None => Occupant::Vacant,
            },
        }
    }
}

/// Copy an entity list entry by entry.
fn copy_list(list: &Vec<Occupied>) -> (r: Vec<Occupied>)
    ensures
        r@ == list@,
{
    let mut r: Vec<Occupied> = Vec::new();
    let mut k: usize = 0;
    while k < list.len()
        invariant
            k <= list.len(),
            r@ == list@.subrange(0, k as int),
        decreases list.len() - k,
    {
        r.push(list[k]);
        k = k + 1;
        proof {
            assert(r@ =~= list@.subrange(0, k as int));
        }
    }
    proof {
        assert(list@.subrange(0, list@.len() as int) =~= list@);
    }
    r
}

} // verus!
