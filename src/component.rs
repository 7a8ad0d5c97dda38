use vstd::prelude::*;

verus! {

/// A handle naming one entity of the simulation.
#[derive(Clone, Copy, Debug, PartialEq, Eq, Structural, Hash)]
pub struct Entity {
    pub id: u64,
}

/// Where an entity stands on the map.
#[derive(Clone, Copy, Debug, PartialEq, Eq, Structural)]
pub struct Position {
    pub x: i32,
    pub y: i32,
}

/// Marks the entity controlled by the player (the primary viewer).
#[derive(Clone, Copy, Debug, PartialEq, Eq, Structural)]
pub struct Player;

/// A display name, used by the message log.
#[derive(Clone, Debug, PartialEq, Eq)]
pub struct Name {
    pub name: String,
}

/// The progress of the turn that an entity currently holds.
#[allow(non_camel_case_types)]
#[derive(Clone, Copy, Debug, PartialEq, Eq, Structural)]
pub enum TurnState {
    PENDING,
    ACTIVE,
    DONE,
}

/// The turn token: at most one entity carries it at any time.
#[derive(Clone, Copy, Debug, PartialEq, Eq, Structural)]
pub struct ActiveTurn {
    pub state: TurnState,
}

/// Marks a computer-controlled creature.
#[derive(Clone, Copy, Debug, PartialEq, Eq, Structural)]
pub struct Monster;

/// Marks an entity that was killed; a sweep outside the simulation core
/// removes it.
#[derive(Clone, Copy, Debug, PartialEq, Eq, Structural)]
pub struct Killed;

/// Marks an entity that blocks movement onto its tile.
#[derive(Clone, Copy, Debug, PartialEq, Eq, Structural)]
pub struct TileBlocker;

/// The scheduling priority of a turn-capable entity: higher acts first.
#[derive(Clone, Copy, Debug, PartialEq, Eq, Structural)]
pub struct Priority {
    pub value: u8,
}

} // verus!
