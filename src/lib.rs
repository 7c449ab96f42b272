//! Chunk streaming for a procedurally generated tile world.
//!
//! The world is cut into square chunks addressed by [`coord::ChunkCoord`].
//! Chunks that have never been seen are filled from a seeded noise field and
//! a weighted [`catalog::TileCatalog`]; a [`map::WorldMap`] records which chunks
//! are waiting to load and which are resident; a
//! [`streaming::StreamingController`] keeps a window of chunks resident around
//! a moving viewpoint and evicts those that drift too far away.

pub mod coord;
pub mod catalog;
pub mod random;
pub mod chunk;
pub mod loader;
pub mod map;
pub mod streaming;
pub mod tag;
