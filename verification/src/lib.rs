//! A bounded four-dimensional foxel world: a sparse brick store, its wire
//! encoding, and a lattice ray traversal.

pub mod algos;
pub mod math;
pub mod world;
