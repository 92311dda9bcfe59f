//! Coordinate primitives and 8-neighbor (Moore) adjacency with boundary
//! clipping.  The neighbor order is a fixed 8-entry displacement list,
//! clockwise from the top-left corner; this order is part of the library's
//! contract because it determines the variable order inside equations.

use vstd::prelude::*;

verus! {

/// Single coordinate axis used for board width, height, and positions.
pub type Coord = u8;

/// Count type used for mine counts and total-cell counts.
pub type CellCount = u16;

/// Two-dimensional coordinates `(x, y)`.
pub type Coord2 = (Coord, Coord);

/// Total cell count of a board of the given dimensions.
pub fn mult(a: Coord, b: Coord) -> (r: CellCount)
    ensures
        r == a as int * b as int,
{
    proof {
        assert(a as int * b as int <= 255 * 255) by (nonlinear_arith)
            requires
                a <= 255,
                b <= 255,
        ;
        assert(0 <= a as int * b as int) by (nonlinear_arith)
            requires
                0 <= a,
                0 <= b,
        ;
    }
    (a as CellCount) * (b as CellCount)
}

/// The fixed displacement list that defines neighbor order.
pub open spec fn delta_list() -> Seq<(int, int)> {
    seq![(-1, -1), (0, -1), (1, -1), (-1, 0), (1, 0), (-1, 1), (0, 1), (1, 1)]
}

/// Applies one displacement to a center coordinate, clipped to the board:
/// the result exists exactly when it stays inside `bounds`.
pub open spec fn delta_coord(center: Coord2, d: (int, int), bounds: Coord2) -> Option<Coord2> {
    let nx = center.0 + d.0;
    let ny = center.1 + d.1;
    if 0 <= nx < bounds.0 && 0 <= ny < bounds.1 {
        Some((nx as Coord, ny as Coord))
    } else {
        None
    }
}

/// The in-bounds neighbors produced by the first `k` displacements, in order.
pub open spec fn neighbors_up_to(center: Coord2, bounds: Coord2, k: int) -> Seq<Coord2>
    decreases k,
{
    if k <= 0 {
        Seq::empty()
    } else {
        let prev = neighbors_up_to(center, bounds, k - 1);
        match delta_coord(center, delta_list()[k - 1], bounds) {
            Some(p) => prev.push(p),
            None => prev,
        }
    }
}

/// All in-bounds Moore neighbors of `center`, in displacement order.
pub open spec fn neighbor_seq(center: Coord2, bounds: Coord2) -> Seq<Coord2> {
    neighbors_up_to(center, bounds, 8)
}

pub proof fn lemma_neighbors_len(center: Coord2, bounds: Coord2, k: int)
    ensures
        neighbors_up_to(center, bounds, k).len() <= if k >= 0 { k } else { 0 },
    decreases k,
{
    if k > 0 {
        lemma_neighbors_len(center, bounds, k - 1);
    }
}

pub proof fn lemma_neighbors_in_bounds(center: Coord2, bounds: Coord2, k: int)
    ensures
        forall|i: int|
            0 <= i < neighbors_up_to(center, bounds, k).len() ==> (#[trigger] neighbors_up_to(
                center,
                bounds,
                k,
            )[i]).0 < bounds.0 && neighbors_up_to(center, bounds, k)[i].1 < bounds.1,
    decreases k,
{
    if k > 0 {
        lemma_neighbors_in_bounds(center, bounds, k - 1);
        let prev = neighbors_up_to(center, bounds, k - 1);
        let cur = neighbors_up_to(center, bounds, k);
        assert forall|i: int| 0 <= i < cur.len() implies (#[trigger] cur[i]).0 < bounds.0
            && cur[i].1 < bounds.1 by {
            match delta_coord(center, delta_list()[k - 1], bounds) {
                Some(p) => {
                    if i < prev.len() {
                        assert(cur[i] == prev[i]);
                    } else {
                        assert(cur[i] == p);
                    }
                },
                None => {
                    assert(cur[i] == prev[i]);
                },
            }
        }
    }
}

fn delta_at(i: u8) -> (d: (i8, i8))
    requires
        i < 8,
    ensures
        (d.0 as int, d.1 as int) == delta_list()[i as int],
{
    match i {
        0 => (-1, -1),
        1 => (0, -1),
        2 => (1, -1),
        3 => (-1, 0),
        4 => (1, 0),
        5 => (-1, 1),
        6 => (0, 1),
        _ => (1, 1),
    }
}

/// Applies `delta` to `coords`, returning a value only when it remains in bounds.
fn apply_delta(coords: Coord2, delta: (i8, i8), bounds: Coord2) -> (r: Option<Coord2>)
    ensures
        r == delta_coord(coords, (delta.0 as int, delta.1 as int), bounds),
{
    let nx: i16 = coords.0 as i16 + delta.0 as i16;
    if nx < 0 || nx >= bounds.0 as i16 {
        return None;
    }
    let ny: i16 = coords.1 as i16 + delta.1 as i16;
    if ny < 0 || ny >= bounds.1 as i16 {
        return None;
    }
    Some((nx as u8, ny as u8))
}

/// Walks the in-bounds Moore neighborhood of a center cell in displacement
/// order.
pub struct NeighborIter {
    pub center: Coord2,
    pub bounds: Coord2,
    pub index: u8,
}

impl NeighborIter {
    /// The neighbors handed out so far.
    pub open spec fn emitted(self) -> Seq<Coord2> {
        neighbors_up_to(self.center, self.bounds, self.index as int)
    }

    pub open spec fn wf(self) -> bool {
        self.index <= 8
    }

    pub fn new(center: Coord2, bounds: Coord2) -> (it: NeighborIter)
        ensures
            it.center == center,
            it.bounds == bounds,
            it.index == 0,
    {
        NeighborIter { center, bounds, index: 0 }
    }

    /// Hands out the next in-bounds neighbor, if one is left.
    pub fn next(&mut self) -> (r: Option<Coord2>)
        requires
            old(self).wf(),
        ensures
            final(self).wf(),
            final(self).center == old(self).center,
            final(self).bounds == old(self).bounds,
            match r {
                Some(p) => {
                    &&& final(self).emitted() == old(self).emitted().push(p)
                    &&& old(self).index < final(self).index
                },
                None => {
                    &&& final(self).emitted() == old(self).emitted()
                    &&& final(self).index == 8
                    &&& old(self).emitted() == neighbor_seq(old(self).center, old(self).bounds)
                },
            },
    {
        loop
            invariant
                self.center == old(self).center,
                self.bounds == old(self).bounds,
                self.index <= 8,
                old(self).index <= self.index,
                self.emitted() == old(self).emitted(),
            decreases 8 - self.index,
        {
            if self.index >= 8 {
                return None;
            }
            let d = delta_at(self.index);
            let next_item = apply_delta(self.center, d, self.bounds);
            self.index = self.index + 1;
            if next_item.is_some() {
                return next_item;
            }
        }
    }
}

/// Grid-like containers that can enumerate the neighbors of a cell.
pub trait NeighborIterExt {
    spec fn nb_bounds(&self) -> Coord2;

    fn iter_neighbors(&self, index: Coord2) -> (it: NeighborIter)
        ensures
            it.center == index,
            it.bounds == self.nb_bounds(),
            it.index == 0,
    ;
}

/// Collects the in-bounds Moore neighbors of `center` in displacement order.
pub fn neighbor_list(center: Coord2, bounds: Coord2) -> (r: Vec<Coord2>)
    ensures
        r@ == neighbor_seq(center, bounds),
{
    let mut it = NeighborIter::new(center, bounds);
    let mut out: Vec<Coord2> = Vec::new();
    loop
        invariant
            it.wf(),
            it.center == center,
            it.bounds == bounds,
            out@ == it.emitted(),
        decreases 8 - it.index,
    {
        match it.next() {
            Some(p) => out.push(p),
            None => {
                return out;
            },
        }
    }
}

} // verus!
