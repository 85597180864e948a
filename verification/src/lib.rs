//! Streaming of an unbounded terrain as a grid of square chunks around a viewer.
//!
//! The library decides which chunks are resident. Meshes, entities and noise are
//! the caller's business: it hands in positions, heights and entity handles and
//! acts on the lists it gets back.

pub mod config;
pub mod height;
pub mod registry;
pub mod terrain;
pub mod viewer;
pub mod water;
pub mod window;
