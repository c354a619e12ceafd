use vstd::prelude::*;

verus! {

/// The body length a fresh agent grows toward once it has fully moved off
/// its starting cell.
pub const SNAKE_STARTING_LENGTH: i32 = 3;

/// Health every agent starts with; it decreases by one each turn.
pub const STARTING_HEALTH: i32 = 100;

/// Largest grid (width times height) the simulator accepts; keeps packed
/// cell indices and per-cell feature values comfortably inside i32 / i64.
pub const MAX_BOARD_CELLS: i32 = 35000;

} // verus!
