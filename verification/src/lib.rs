//! A falling-sand cellular automaton: a fixed 2-D occupancy grid of typed
//! particles (movable solids, immovable solids, liquids, gases) that move
//! each tick according to per-category rules, with a two-phase
//! propose/commit scheduler and a square-brush placement controller.

pub mod element;
pub mod matrix;
pub mod placement;
pub mod resolver;
pub mod scheduler;
pub mod laws;
