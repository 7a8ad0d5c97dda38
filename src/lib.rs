//! Simulation core of a tile-based roguelike: the tile map and its spatial
//! index, procedural map generation, the priority-driven turn scheduler, the
//! field-of-view calculator, and a small hierarchical state machine.

pub mod geom;
pub mod component;
pub mod map;
pub mod random;
pub mod builders;
pub mod basic_builders;
pub mod drunkard;
pub mod world;
pub mod index_system;
pub mod fov;
pub mod turn_system;
pub mod movement;
pub mod fsm;
pub mod message;
