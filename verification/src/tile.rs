use vstd::prelude::*;

verus! {

/// What a single board cell holds.
#[derive(Clone, Copy, Debug, PartialEq, Eq, Structural)]
pub enum TileKind {
    /// A mine; revealing it ends the game.
    Boom,
    /// A safe cell with 1 to 8 mines among its neighbors.
    Danger(u8),
    /// A safe cell with no mine next to it.
    Fine,
    /// A `Danger` cell that has been revealed; the count is kept for display.
    Defused(u8),
}

impl Default for TileKind {
    fn default() -> (kind: Self)
        ensures
            kind == TileKind::Fine,
    {
        TileKind::Fine
    }
}

/// The annotation a safe cell carries when `mines` of its neighbors are mines.
pub open spec fn danger_kind(mines: nat) -> TileKind {
    if mines == 0 {
        TileKind::Fine
    } else {
        TileKind::Danger(mines as u8)
    }
}

/// True for the cells that carry a neighbor-mine count, revealed or not.
pub open spec fn warns(kind: TileKind) -> bool {
    kind is Danger || kind is Defused
}

} // verus!
