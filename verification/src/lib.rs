use vstd::prelude::*;

pub mod constants;
pub mod game;
pub mod logic;
pub mod neural_network;
pub mod simulation;
pub mod utils;

verus! {

/// A single cell position on the grid.
#[derive(Clone, Copy, PartialEq, Eq, Structural, Debug)]
pub struct Coord {
    pub x: i32,
    pub y: i32,
}

/// One agent on the board: identity, display name, remaining health,
/// ordered body segments from neck to tail, the head cell, and the body
/// length the agent is growing toward.
#[derive(Clone, Debug)]
pub struct Battlesnake {
    pub id: u32,
    pub name: String,
    pub health: i32,
    pub body: Vec<Coord>,
    pub head: Coord,
    pub length: i32,
}

/// The grid plus all agents, food, and hazards for one game.
#[derive(Clone, Debug)]
pub struct Board {
    pub height: u32,
    pub width: i32,
    pub food: Vec<Coord>,
    pub snakes: Vec<Battlesnake>,
    pub hazards: Vec<Coord>,
}

/// Per-game metadata: an identifier, an opaque key-value ruleset that the
/// turn rules never read, and an informational timeout budget.
#[derive(Clone, Debug)]
pub struct Game {
    pub id: String,
    pub ruleset: Vec<(String, String)>,
    pub timeout: i32,
}

/// Invariant violations that abort a run: each is surfaced to the caller
/// instead of corrupting state. Expected removals — starvation, leaving
/// the grid, collisions — are ordinary transitions, never errors.
#[derive(Clone, Copy, PartialEq, Eq, Structural, Debug)]
pub enum SimulationError {
    /// An action could not be resolved to a unit offset.
    InvalidAction,
    /// The population cannot supply the slice or index a game asked for.
    PopulationIndexOutOfRange,
    /// An agent identity that maps to no policy in the population.
    UnknownAgentId,
    /// A game stopped without reaching a winner or a tie.
    NonterminalGameResult,
}

/// Bounds that every agent keeps between turns: non-negative health within
/// the starting budget, and a body strictly shorter than the target length.
pub open spec fn wf_snake(s: Battlesnake) -> bool {
    &&& 0 <= s.health <= crate::constants::STARTING_HEALTH
    &&& 1 <= s.length
    &&& s.body@.len() as int + 1 <= s.length as int
}

pub open spec fn all_snakes_wf(s: Seq<Battlesnake>) -> bool {
    forall|i: int| 0 <= i < s.len() ==> wf_snake(#[trigger] s[i])
}

/// Agent identities are unique within one board.
pub open spec fn ids_distinct(s: Seq<Battlesnake>) -> bool {
    forall|i: int, j: int| 0 <= i < j < s.len() ==> #[trigger] s[i].id != #[trigger] s[j].id
}

pub open spec fn coord_in_bounds(c: Coord, width: i32, height: u32) -> bool {
    &&& 0 <= c.x < width
    &&& 0 <= c.y
    &&& (c.y as int) < (height as int)
}

pub open spec fn heads_in_bounds(s: Seq<Battlesnake>, width: i32, height: u32) -> bool {
    forall|i: int| 0 <= i < s.len() ==> coord_in_bounds(#[trigger] s[i].head, width, height)
}

/// Grid dimensions the simulator accepts: both sides positive and the cell
/// count small enough that feature vectors and packed indices stay in range.
pub open spec fn wf_dims(width: i32, height: u32) -> bool {
    &&& 1 <= width
    &&& 1 <= height
    &&& (width as int) * (height as int) <= crate::constants::MAX_BOARD_CELLS as int
}

} // verus!
