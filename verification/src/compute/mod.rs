//! Distributed compute: tensor shapes, gradient errors and mesh
//! configuration.

pub mod tensor;
pub mod gradient;
pub mod mesh;
pub mod shard;
