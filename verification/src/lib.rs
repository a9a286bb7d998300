//! Incremental two-dimensional Delaunay triangulation (Bowyer-Watson),
//! together with the small utility toolkit that the surrounding demos share:
//! a deterministic integer hash, a keyed priority queue, an RGBA texture
//! buffer, a sound-instance table and a colour-walk grid.
//!
//! The triangulation engine works on exact integer coordinates (a fixed-point
//! grid), so the circumcircle predicate is an exact sign computation and every
//! structural property of an insertion cycle is stated and proved here.

pub mod checks;
pub mod engine;
pub mod geometry;
pub mod kinput;
pub mod kmath;
pub mod mesh;
pub mod priority_queue;
pub mod rgbutm;
pub mod sound_instance;
pub mod store;
pub mod texture_buffer;
