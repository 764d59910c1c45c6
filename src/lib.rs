//! Chunked, procedurally generated tile worlds: coordinate maths, chunk
//! streaming around loaders, and A* pathfinding over the resident chunks.
use vstd::prelude::*;

pub mod objects;
pub mod systems;
pub mod utils;
pub mod world;

verus! {

} // verus!
