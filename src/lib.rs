//! The interaction core of a node-graph editor: slot geometry, the spatial
//! layer of node positions, the visual mirror of the graph's edges, and the
//! drag-and-drop state machine that turns pointer events into graph commands.
use vstd::prelude::*;

pub mod geometry;
pub mod graph;
pub mod visuals;
pub mod editor;
pub mod laws;
pub mod parameters;

verus! {

} // verus!
