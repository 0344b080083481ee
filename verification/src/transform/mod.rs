//! The back-ends and the layer dependency sort.

pub mod emit;
pub mod graph;
pub mod kanata;
pub mod order;
pub mod vial;
