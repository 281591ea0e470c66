use vstd::prelude::*;

verus! {

/// The game's top-level state.
#[derive(Clone, Copy, Debug, PartialEq, Eq, Hash, Structural)]
pub enum GameStage {
    /// The board exists but mines are not yet placed; the first click places
    /// them, so that first click can never detonate.
    NewGame,
    /// Mines placed, play active.
    MapSet,
    /// A mine went off; only a reset leaves this stage.
    KillScreen,
    /// Every safe region was cleared; only a reset leaves this stage.
    WinScreen,
}

} // verus!
