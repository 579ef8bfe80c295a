//! A sparse, chunked voxel world library.
//!
//! The world is an unbounded three-dimensional grid of blocks organized into
//! 16x16x16 chunks, which are themselves grouped into 16x16x16 regions to
//! bound the growth of the sparse index. The library provides:
//!
//! - coordinate conversions between block, chunk, and region space
//!   ([`coords`]);
//! - axis-aligned inclusive cuboids with a row-major linear indexing
//!   ([`region`]);
//! - sparse payload storage with default-value semantics for unallocated
//!   space ([`world`]);
//! - a parallel tracker recording a streaming state per chunk ([`states`]);
//! - a streaming scheduler that emits load requests around anchors
//!   ([`populator`]);
//! - face-culling chunk mesh generation ([`block_data`], [`mesher`]).

pub mod block_data;
pub mod coords;
pub mod mesher;
pub mod populator;
pub mod region;
pub mod states;
pub mod world;
