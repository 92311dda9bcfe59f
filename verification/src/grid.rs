//! Owned 2D container: a row-major flat buffer with bounds-checked access.
//! Cell `(x, y)` lives at flat index `x * size_y + y`, so the outer axis is
//! `x`, matching the board scan order used by the constraint builder.

use vstd::prelude::*;

use crate::types::{Coord2, NeighborIter, NeighborIterExt, mult};

verus! {

/// Mathematical model of a [`Grid`]: dimensions plus the flat cell sequence.
#[verifier::ext_equal]
pub struct GridModel<T> {
    pub sx: int,
    pub sy: int,
    pub cells: Seq<T>,
}

impl<T> GridModel<T> {
    pub open spec fn wf(self) -> bool {
        &&& self.cells.len() == self.sx * self.sy
        &&& 0 <= self.sx <= 255
        &&& 0 <= self.sy <= 255
    }

    pub open spec fn in_bounds(self, x: int, y: int) -> bool {
        0 <= x < self.sx && 0 <= y < self.sy
    }

    /// The cell at `(x, y)` (meaningful only in bounds).
    pub open spec fn at(self, x: int, y: int) -> T {
        self.cells[x * self.sy + y]
    }
}

pub proof fn lemma_flat_index_bound(x: int, y: int, sx: int, sy: int)
    requires
        0 <= x < sx,
        0 <= y < sy,
    ensures
        0 <= x * sy + y < sx * sy,
{
    assert(0 <= x * sy + y < sx * sy) by (nonlinear_arith)
        requires
            0 <= x < sx,
            0 <= y < sy,
    ;
}

pub proof fn lemma_flat_index_small(x: int, y: int, sy: int)
    requires
        0 <= x <= 255,
        0 <= y <= 255,
        0 <= sy <= 255,
    ensures
        0 <= x * sy + y <= 65535,
{
    assert(0 <= x * sy <= 255 * 255) by (nonlinear_arith)
        requires
            0 <= x <= 255,
            0 <= sy <= 255,
    ;
}

pub proof fn lemma_flat_index_inj(x1: int, y1: int, x2: int, y2: int, sy: int)
    requires
        0 <= x1,
        0 <= x2,
        0 <= y1 < sy,
        0 <= y2 < sy,
        x1 * sy + y1 == x2 * sy + y2,
    ensures
        x1 == x2,
        y1 == y2,
{
    assert(x1 == x2 && y1 == y2) by (nonlinear_arith)
        requires
            0 <= x1,
            0 <= x2,
            0 <= y1 < sy,
            0 <= y2 < sy,
            x1 * sy + y1 == x2 * sy + y2,
    ;
}

/// An owned 2D grid over up-to-255-wide axes, stored row-major.
pub struct Grid<T> {
    size: Coord2,
    cells: Vec<T>,
}

impl<T> View for Grid<T> {
    type V = GridModel<T>;

    closed spec fn view(&self) -> GridModel<T> {
        GridModel { sx: self.size.0 as int, sy: self.size.1 as int, cells: self.cells@ }
    }
}

impl<T> Grid<T> {
    /// Structural invariant: the flat buffer matches the dimensions.
    #[verifier::type_invariant]
    pub open spec fn type_inv(self) -> bool {
        self@.wf()
    }

    /// Builds a grid of the given dimensions with every cell set to `elem`.
    pub fn from_elem(size: Coord2, elem: T) -> (g: Grid<T>) where T: Copy
        ensures
            g@.sx == size.0,
            g@.sy == size.1,
            g@.cells.len() == size.0 as int * size.1 as int,
            forall|i: int| 0 <= i < g@.cells.len() ==> g@.cells[i] == elem,
    {
        let n = mult(size.0, size.1) as usize;
        let mut cells: Vec<T> = Vec::new();
        let mut i: usize = 0;
        while i < n
            invariant
                i <= n,
                cells@.len() == i,
                forall|k: int| 0 <= k < i ==> cells@[k] == elem,
            decreases n - i,
        {
            cells.push(elem);
            i = i + 1;
        }
        Grid { size, cells }
    }

    /// Wraps a flat cell buffer, provided its length matches the dimensions.
    pub fn from_vec(size: Coord2, cells: Vec<T>) -> (r: Option<Grid<T>>)
        ensures
            match r {
                Some(g) => {
                    &&& cells@.len() == size.0 as int * size.1 as int
                    &&& g@.sx == size.0
                    &&& g@.sy == size.1
                    &&& g@.cells == cells@
                },
                None => cells@.len() != size.0 as int * size.1 as int,
            },
    {
        let expected = mult(size.0, size.1);
        if cells.len() == expected as usize {
            Some(Grid { size, cells })
        } else {
            None
        }
    }

    /// The grid's dimensions `(size_x, size_y)`.
    pub fn size(&self) -> (s: Coord2)
        ensures
            s.0 == self@.sx,
            s.1 == self@.sy,
    {
        self.size
    }

    /// Reads the cell at `c`.
    pub fn get(&self, c: Coord2) -> (v: T) where T: Copy
        requires
            self@.in_bounds(c.0 as int, c.1 as int),
        ensures
            v == self@.at(c.0 as int, c.1 as int),
    {
        proof {
            use_type_invariant(self);
            lemma_flat_index_bound(c.0 as int, c.1 as int, self@.sx, self@.sy);
            lemma_flat_index_small(c.0 as int, c.1 as int, self@.sy);
        }
        let idx = (c.0 as usize) * (self.size.1 as usize) + (c.1 as usize);
        self.cells[idx]
    }

    /// Writes the cell at `c`, leaving every other cell unchanged.
    pub fn set(&mut self, c: Coord2, v: T)
        requires
            old(self)@.in_bounds(c.0 as int, c.1 as int),
        ensures
            final(self)@.sx == old(self)@.sx,
            final(self)@.sy == old(self)@.sy,
            final(self)@.cells.len() == old(self)@.cells.len(),
            forall|a: int, b: int|
                final(self)@.in_bounds(a, b) ==> final(self)@.at(a, b) == if a == c.0 as int && b
                    == c.1 as int {
                    v
                } else {
                    old(self)@.at(a, b)
                },
    {
        proof {
            use_type_invariant(&*self);
            lemma_flat_index_bound(c.0 as int, c.1 as int, self@.sx, self@.sy);
            lemma_flat_index_small(c.0 as int, c.1 as int, self@.sy);
        }
        let idx = (c.0 as usize) * (self.size.1 as usize) + (c.1 as usize);
        self.cells[idx] = v;
        proof {
            assert forall|a: int, b: int| final(self)@.in_bounds(a, b) implies final(self)@.at(
                a,
                b,
            ) == if a == c.0 as int && b == c.1 as int {
                v
            } else {
                old(self)@.at(a, b)
            } by {
                lemma_flat_index_bound(a, b, self@.sx, self@.sy);
                if a * self@.sy + b == c.0 as int * self@.sy + c.1 as int {
                    lemma_flat_index_inj(a, b, c.0 as int, c.1 as int, self@.sy);
                }
            }
        }
    }

}

impl<T> NeighborIterExt for Grid<T> {
    open spec fn nb_bounds(&self) -> Coord2 {
        (self@.sx as u8, self@.sy as u8)
    }

    fn iter_neighbors(&self, index: Coord2) -> (it: NeighborIter) {
        NeighborIter::new(index, self.size)
    }
}

} // verus!
