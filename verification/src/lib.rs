//! Session engine for a multiplayer party game: rooms, rotating leaders,
//! shuffled card bags, submission quorum and the per-viewer poll snapshot.

pub mod action;
pub mod bag;
pub mod chance;
pub mod engine;
pub mod laws;
pub mod model;
pub mod registry;
pub mod room;
pub mod snapshot;
pub mod status;
pub mod steps;
pub mod text;
