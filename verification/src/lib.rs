//! A verified minesweeper core: a rectangular minefield with random mine
//! placement, neighbor-count annotations, an iterative flood-clear of safe
//! regions, and the game's stage machine. Rendering, input devices and
//! physics are left to the surrounding application; this crate owns the rules.

pub mod grid;
pub mod tile;
pub mod counting;
pub mod minefield;
pub mod reach;
pub mod minesweeper;
pub mod stages;
pub mod game;
