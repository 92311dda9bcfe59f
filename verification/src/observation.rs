//! A read-only snapshot of the board as the player sees it: which cells are
//! revealed (with their adjacent-mine clue), which are flagged, and, when
//! known, the board's total mine count.  An observation is built once and
//! never mutated; the constraint builder consumes it.

use vstd::prelude::*;

use crate::error::GameError;
use crate::grid::{lemma_flat_index_bound, Grid, GridModel};
use crate::tile::EngineCell;
use crate::types::{CellCount, Coord, Coord2, mult};

verus! {

/// Mathematical model of an [`Observation`].
#[verifier::ext_equal]
pub struct ObservationModel {
    pub sx: int,
    pub sy: int,
    pub mine_count: Option<CellCount>,
    pub revealed: GridModel<Option<u8>>,
    pub flags: GridModel<bool>,
}

impl ObservationModel {
    /// Both grids have exactly the declared dimensions.
    pub open spec fn shape_ok(self) -> bool {
        &&& self.revealed.sx == self.sx
        &&& self.revealed.sy == self.sy
        &&& self.flags.sx == self.sx
        &&& self.flags.sy == self.sy
    }

    pub open spec fn total_cells(self) -> int {
        self.sx * self.sy
    }

    /// A declared mine count, if present, fits on the board.
    pub open spec fn count_ok(self) -> bool {
        match self.mine_count {
            Some(m) => m <= self.total_cells(),
            None => true,
        }
    }

    /// The cell at `(x, y)` is hidden (carries no revealed clue).
    pub open spec fn hidden(self, x: int, y: int) -> bool {
        self.revealed.at(x, y) is None
    }

    pub open spec fn in_bounds(self, x: int, y: int) -> bool {
        0 <= x < self.sx && 0 <= y < self.sy
    }

    pub open spec fn wf(self) -> bool {
        &&& self.revealed.wf()
        &&& self.flags.wf()
        &&& 0 <= self.sx <= 255
        &&& 0 <= self.sy <= 255
    }
}

/// Immutable snapshot of revealed / flagged / hidden cell state, plus an
/// optional known total mine count.
pub struct Observation {
    pub size: Coord2,
    pub mine_count: Option<CellCount>,
    pub revealed: Grid<Option<u8>>,
    pub flags: Grid<bool>,
}

impl View for Observation {
    type V = ObservationModel;

    open spec fn view(&self) -> ObservationModel {
        ObservationModel {
            sx: self.size.0 as int,
            sy: self.size.1 as int,
            mine_count: self.mine_count,
            revealed: self.revealed@,
            flags: self.flags@,
        }
    }
}

impl Observation {
    /// Assembles and validates a snapshot.  Succeeds exactly when the grids
    /// match the declared size and any declared mine count fits the board.
    pub fn new(
        size: Coord2,
        mine_count: Option<CellCount>,
        revealed: Grid<Option<u8>>,
        flags: Grid<bool>,
    ) -> (r: Result<Observation, GameError>)
        ensures
            ({
                let m = ObservationModel {
                    sx: size.0 as int,
                    sy: size.1 as int,
                    mine_count: mine_count,
                    revealed: revealed@,
                    flags: flags@,
                };
                match r {
                    Ok(o) => o@ == m && m.shape_ok() && m.count_ok(),
                    Err(GameError::InvalidBoardShape) => !m.shape_ok(),
                    Err(GameError::TooManyMines) => m.shape_ok() && !m.count_ok(),
                    Err(_) => false,
                }
            }),
    {
        let obs = Observation { size, mine_count, revealed, flags };
        match obs.validate() {
            Ok(()) => Ok(obs),
            Err(e) => Err(e),
        }
    }

    /// Snapshots a play engine's per-cell state: revealed cells keep their
    /// clue value, flagged cells set their flag, hidden cells stay blank.
    /// The mine count is whatever the caller knows (the engine's own total,
    /// or nothing).
    pub fn from_engine_with_mine_count(
        cells: &Grid<EngineCell>,
        mine_count: Option<CellCount>,
    ) -> (r: Observation)
        ensures
            r@.sx == cells@.sx,
            r@.sy == cells@.sy,
            r@.mine_count == mine_count,
            r@.shape_ok(),
            forall|a: int, b: int|
                cells@.in_bounds(a, b) ==> r@.revealed.at(a, b) == (match (#[trigger] cells@.at(
                    a,
                    b,
                )) {
                    EngineCell::Revealed(c) => Some(c),
                    _ => None,
                }) && r@.flags.at(a, b) == (cells@.at(a, b) is Flagged),
    {
        proof {
            use_type_invariant(cells);
        }
        let size = cells.size();
        let ghost cm = cells@;
        let mut revealed: Grid<Option<u8>> = Grid::from_elem(size, None);
        let mut flags: Grid<bool> = Grid::from_elem(size, false);
        proof {
            assert forall|a: int, b: int| cm.in_bounds(a, b) implies #[trigger] revealed@.at(a, b)
                == None::<u8> by {
                lemma_flat_index_bound(a, b, cm.sx, cm.sy);
            }
            assert forall|a: int, b: int| cm.in_bounds(a, b) implies #[trigger] flags@.at(a, b)
                == false by {
                lemma_flat_index_bound(a, b, cm.sx, cm.sy);
            }
        }

        let mut x: Coord = 0;
        while x < size.0
            invariant
                x <= size.0,
                cm == cells@,
                size.0 == cm.sx,
                size.1 == cm.sy,
                cm.wf(),
                revealed@.sx == cm.sx,
                revealed@.sy == cm.sy,
                flags@.sx == cm.sx,
                flags@.sy == cm.sy,
                forall|a: int, b: int|
                    cm.in_bounds(a, b) ==> #[trigger] revealed@.at(a, b) == (if a < x {
                        match cm.at(a, b) {
                            EngineCell::Revealed(c) => Some(c),
                            _ => None,
                        }
                    } else {
                        None
                    }),
                forall|a: int, b: int|
                    cm.in_bounds(a, b) ==> #[trigger] flags@.at(a, b) == (a < x && cm.at(
                        a,
                        b,
                    ) is Flagged),
            decreases size.0 - x,
        {
            let mut y: Coord = 0;
            while y < size.1
                invariant
                    x < size.0,
                    y <= size.1,
                    cm == cells@,
                    size.0 == cm.sx,
                    size.1 == cm.sy,
                    cm.wf(),
                    revealed@.sx == cm.sx,
                    revealed@.sy == cm.sy,
                    flags@.sx == cm.sx,
                    flags@.sy == cm.sy,
                    forall|a: int, b: int|
                        cm.in_bounds(a, b) ==> #[trigger] revealed@.at(a, b) == (if a < x || (a
                            == x && b < y) {
                            match cm.at(a, b) {
                                EngineCell::Revealed(c) => Some(c),
                                _ => None,
                            }
                        } else {
                            None
                        }),
                    forall|a: int, b: int|
                        cm.in_bounds(a, b) ==> #[trigger] flags@.at(a, b) == ((a < x || (a == x
                            && b < y)) && cm.at(a, b) is Flagged),
                decreases size.1 - y,
            {
                let coords = (x, y);
                match cells.get(coords) {
                    EngineCell::Hidden => {},
                    EngineCell::Revealed(count) => revealed.set(coords, Some(count)),
                    EngineCell::Flagged => flags.set(coords, true),
                }
                y = y + 1;
            }
            x = x + 1;
        }

        Observation { size, mine_count, revealed, flags }
    }

    /// Checks the structural invariants of the snapshot: grid shapes match
    /// the declared size, and a declared mine count fits the board.
    pub fn validate(&self) -> (r: Result<(), GameError>)
        ensures
            match r {
                Ok(()) => self@.shape_ok() && self@.count_ok(),
                Err(GameError::InvalidBoardShape) => !self@.shape_ok(),
                Err(GameError::TooManyMines) => self@.shape_ok() && !self@.count_ok(),
                Err(_) => false,
            },
    {
        let rsize = self.revealed.size();
        let fsize = self.flags.size();
        if rsize.0 != self.size.0 || rsize.1 != self.size.1 || fsize.0 != self.size.0 || fsize.1
            != self.size.1 {
            return Err(GameError::InvalidBoardShape);
        }
        if let Some(mine_count) = self.mine_count {
            if mine_count > mult(self.size.0, self.size.1) {
                return Err(GameError::TooManyMines);
            }
        }
        Ok(())
    }
}

} // verus!
