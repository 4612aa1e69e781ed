//! A small typed dataflow-graph editor core: node variants, pin compatibility
//! masks, a graph store over `egui_snarl::Snarl`, and the gesture controller
//! that mutates it.

pub mod graph;
pub mod nodes;
pub mod snapshot;
pub mod viewer;
