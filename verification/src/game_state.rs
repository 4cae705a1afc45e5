use vstd::prelude::*;

verus! {

/// What the game is doing: setting up, or running an encounter.
#[derive(Clone, Copy, PartialEq, Eq, Structural, Debug)]
pub enum GameState {
    Initialization,
    Combat,
}

} // verus!
