//! The play engine's lifecycle state, as seen at the analysis boundary.
//! The engine itself (reveal mechanics, flood fill, layout generation) is an
//! outside collaborator of this library: analysis only consumes a snapshot
//! of its cell states, never the engine.

use vstd::prelude::*;

verus! {

/// Lifecycle of a play-engine session.
#[derive(Copy, Clone, Debug, PartialEq, Eq, Structural)]
pub enum EngineState {
    Ready,
    Active,
    Won,
    Lost,
}

impl EngineState {
    /// The session has not seen its first reveal yet.
    pub fn is_ready(self) -> (r: bool)
        ensures
            r == (self is Ready),
    {
        matches!(self, EngineState::Ready)
    }

    /// The session has ended, in either outcome.
    pub fn is_finished(self) -> (r: bool)
        ensures
            r == (self is Won || self is Lost),
    {
        matches!(self, EngineState::Won | EngineState::Lost)
    }
}

impl Default for EngineState {
    fn default() -> (r: Self)
        ensures
            r is Ready,
    {
        EngineState::Ready
    }
}

} // verus!
