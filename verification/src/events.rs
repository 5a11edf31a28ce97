use crate::math::IVec3;
use vstd::prelude::*;

verus! {

/// Told when the voxel data of a chunk has been generated and stored.
#[derive(Clone, Copy, Debug, PartialEq, Eq, Structural)]
pub struct ChunkGenerated(pub IVec3);

/// Told when the voxel data of a chunk is let go.
#[derive(Clone, Copy, Debug, PartialEq, Eq, Structural)]
pub struct ChunkUnloaded(pub IVec3);

/// Told when a voxel of a chunk, or one that borders it, has been changed.
#[derive(Clone, Copy, Debug, PartialEq, Eq, Structural)]
pub struct ChunkModified(pub IVec3);

} // verus!
