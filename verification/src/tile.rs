//! Canonical player-visible cell state stored by the gameplay engine.

use vstd::prelude::*;

verus! {

/// What the player currently sees in one cell.
#[derive(Copy, Clone, Debug, PartialEq, Eq, Structural)]
pub enum EngineCell {
    Hidden,
    Revealed(u8),
    Flagged,
}

impl EngineCell {
    /// Whether the cell still hides its content (hidden or flagged).
    pub fn is_unrevealed(self) -> (r: bool)
        ensures
            r == (self is Hidden || self is Flagged),
    {
        matches!(self, EngineCell::Hidden | EngineCell::Flagged)
    }
}

impl Default for EngineCell {
    fn default() -> (r: Self)
        ensures
            r is Hidden,
    {
        EngineCell::Hidden
    }
}

} // verus!
