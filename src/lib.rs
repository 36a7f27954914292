//! A small terminal dungeon crawler: procedural dungeon generation, screen
//! composition, the per-connection session state machine and the client's
//! key hand-off logic.

pub mod chance;
pub mod dungeon;
pub mod screen;
pub mod session;
pub mod client;
