use crate::chunk::ChunkData;
use crate::chunk_map::ChunkMap;
use crate::math::IVec3;
use crate::voxel::BlockData;
use std::sync::Arc;
use vstd::prelude::*;

verus! {

/// The position, relative to the middle chunk, of the `index`-th chunk of
/// a neighbourhood: x varies fastest, then y, then z, each from -1 to 1.
pub open spec fn neighbour_offset(index: int) -> (int, int, int) {
    (index % 3 - 1, (index / 3) % 3 - 1, index / 9 - 1)
}

/// The `index`-th chunk around `middle`, where its coordinates fit 32 bits.
pub open spec fn spec_neighbour(middle: IVec3, index: int) -> Option<IVec3> {
    let offset = neighbour_offset(index);
    if i32::MIN <= middle.x + offset.0 <= i32::MAX && i32::MIN <= middle.y + offset.1 <= i32::MAX
        && i32::MIN <= middle.z + offset.2 <= i32::MAX {
        Some(
            IVec3 {
                x: (middle.x + offset.0) as i32,
                y: (middle.y + offset.1) as i32,
                z: (middle.z + offset.2) as i32,
            },
        )
    } else {
        None
    }
}

/// Whether the world holds the data of `middle` and of each of the 26
/// chunks around it.
pub open spec fn neighbours_available<V>(world: Map<IVec3, V>, middle: IVec3) -> bool {
    forall|index: int|
        0 <= index < 27 ==> match #[trigger] spec_neighbour(middle, index) {
            Some(chunk) => world.contains_key(chunk),
            None => false,
        }
}

/// The `index`-th chunk around `middle`.
pub fn neighbour(middle: IVec3, index: usize) -> (chunk: Option<IVec3>)
    requires
        index < 27,
    ensures
        chunk == spec_neighbour(middle, index as int),
{
    let x: i32 = (index % 3) as i32 - 1;
    let y: i32 = ((index / 3) % 3) as i32 - 1;
    let z: i32 = (index / 9) as i32 - 1;
    middle.checked_add(IVec3::new(x, y, z))
}

/// The voxel of a chunk at linear index `index`.
pub open spec fn spec_voxel(voxels: Seq<BlockData>, index: int) -> BlockData {
    if voxels.len() == 1 {
        voxels[0]
    } else {
        voxels[index]
    }
}

/// A chunk together with the 26 chunks around it, as a mesh job sees them.
pub struct ChunksRefs {
    chunks: Vec<Arc<ChunkData>>,
}

impl ChunksRefs {
    /// The neighbourhood holds the middle chunk and the 26 around it.
    #[verifier::type_invariant]
    spec fn complete(self) -> bool {
        self.chunks@.len() == 27
    }

    /// The voxels of the `index`-th chunk of the neighbourhood.
    pub closed spec fn spec_chunk(&self, index: int) -> Seq<BlockData> {
        self.chunks@[index]@
    }

    /// The voxel at `pos`, a position relative to the middle chunk that may
    /// lie up to a chunk's length outside it.
    pub open spec fn spec_get_block(&self, pos: IVec3) -> BlockData {
        let x = pos.x + 32;
        let y = pos.y + 32;
        let z = pos.z + 32;
        let chunk_index = x / 32 + (y / 32) * 3 + (z / 32) * 9;
        let index = x % 32 + (y % 32) * 32 + (z % 32) * 1024;
        spec_voxel(self.spec_chunk(chunk_index), index)
    }

    /// Whether `pos` lies in the neighbourhood.
    pub open spec fn in_reach(pos: IVec3) -> bool {
        -32 <= pos.x < 64 && -32 <= pos.y < 64 && -32 <= pos.z < 64
    }

    /// The neighbourhood of `middle_chunk` in the world, if the world holds
    /// all of it.
    pub fn try_new(world_data: &ChunkMap<Arc<ChunkData>>, middle_chunk: IVec3) -> (refs: Option<
        ChunksRefs,
    >)
        ensures
            refs.is_some() == neighbours_available(world_data@, middle_chunk),
            refs.is_some() ==> forall|index: int|
                0 <= index < 27 ==> refs.unwrap().spec_chunk(index) == world_data@[(
                #[trigger] spec_neighbour(middle_chunk, index)).unwrap()]@,
    {
        let mut chunks: Vec<Arc<ChunkData>> = Vec::new();
        let mut index: usize = 0;
        while index < 27
            invariant
                index <= 27,
                chunks@.len() == index,
                forall|k: int|
                    0 <= k < index ==> match #[trigger] spec_neighbour(middle_chunk, k) {
                        Some(chunk) => world_data@.contains_key(chunk) && chunks@[k]@
                            == world_data@[chunk]@,
                        None => false,
                    },
            decreases 27 - index,
        {
            match neighbour(middle_chunk, index) {
                Some(chunk) => {
                    match world_data.get(chunk) {
                        Some(shared) => {
                            chunks.push(shared.clone());
                        },
                        None => {
                            return None;
                        },
                    }
                },
                None => {
                    return None;
                },
            }
            index += 1;
        }
        Some(ChunksRefs { chunks })
    }

    /// A neighbourhood of the given chunks, if there are 27 of them.
    pub fn from_chunks(chunks: Vec<Arc<ChunkData>>) -> (refs: Option<ChunksRefs>)
        ensures
            refs.is_some() == (chunks@.len() == 27),
            refs.is_some() ==> forall|index: int|
                0 <= index < 27 ==> #[trigger] refs.unwrap().spec_chunk(index) == chunks@[index]@,
    {
        if chunks.len() == 27 {
            Some(ChunksRefs { chunks })
        } else {
            None
        }
    }

    /// The voxel at `pos`, a position relative to the middle chunk that may
    /// lie in one of the chunks around it.
    pub fn get_block(&self, pos: IVec3) -> (block: &BlockData)
        requires
            Self::in_reach(pos),
        ensures
            *block == self.spec_get_block(pos),
    {
        proof {
            use_type_invariant(self);
        }
        let x: u32 = (pos.x + 32) as u32;
        let y: u32 = (pos.y + 32) as u32;
        let z: u32 = (pos.z + 32) as u32;
        let chunk_index: usize = (x / 32 + (y / 32) * 3 + (z / 32) * 9) as usize;
        let index: usize = (x % 32 + (y % 32) * 32 + (z % 32) * 1024) as usize;
        self.chunks[chunk_index].get_block(index)
    }

    /// The voxel of the middle chunk at `pos`.
    pub fn get_block_no_neighbour(&self, pos: IVec3) -> (block: &BlockData)
        requires
            0 <= pos.x < 32,
            0 <= pos.y < 32,
            0 <= pos.z < 32,
        ensures
            *block == self.spec_get_block(pos),
    {
        proof {
            use_type_invariant(self);
        }
        let index: usize = (pos.x + pos.y * 32 + pos.z * 1024) as usize;
        self.chunks[13].get_block(index)
    }
}

} // verus!
