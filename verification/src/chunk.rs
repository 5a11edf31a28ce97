use crate::constants::CHUNK_SIZE3;
use crate::voxel::BlockData;
use vstd::prelude::*;

verus! {

/// The voxels of one chunk: either a single entry that stands for every
/// voxel (a uniform chunk), or one entry per voxel, by linear index.
#[derive(Debug)]
pub struct ChunkData {
    voxels: Vec<BlockData>,
}

impl View for ChunkData {
    type V = Seq<BlockData>;

    closed spec fn view(&self) -> Seq<BlockData> {
        self.voxels@
    }
}

impl Clone for ChunkData {
    fn clone(&self) -> (copy: ChunkData)
        ensures
            copy@ == self@,
    {
        proof {
            use_type_invariant(self);
        }
        let voxels = self.voxels.clone();
        assert(voxels@ =~= self.voxels@);
        ChunkData { voxels }
    }
}

impl ChunkData {
    /// The chunk is uniform or holds every voxel.
    #[verifier::type_invariant]
    spec fn sized(self) -> bool {
        self.voxels@.len() == 1 || self.voxels@.len() == 32768
    }

    /// Whether a chunk can hold `voxels`: one entry, or one for each voxel.
    pub open spec fn spec_valid_len(len: nat) -> bool {
        len == 1 || len == 32768
    }

    /// Whether a single entry stands for every voxel.
    pub open spec fn is_uniform(&self) -> bool {
        self@.len() == 1
    }

    /// The voxel at linear index `index`.
    pub open spec fn spec_get_block(&self, index: int) -> BlockData {
        if self@.len() == 1 {
            self@[0]
        } else {
            self@[index]
        }
    }

    /// The voxels written out one by one: those of the chunk itself where it
    /// is not uniform, else 32768 copies of its single entry.
    pub open spec fn expanded(&self) -> Seq<BlockData> {
        spec_expand(self@)
    }

    /// A uniform chunk of `block`.
    pub fn filled(block: BlockData) -> (chunk: ChunkData)
        ensures
            chunk@ == seq![block],
    {
        let mut voxels: Vec<BlockData> = Vec::new();
        voxels.push(block);
        assert(voxels@ =~= seq![block]);
        ChunkData { voxels }
    }

    /// A chunk of the given voxels, where there is one of them or one for
    /// each voxel of a chunk.
    pub fn from_voxels(voxels: Vec<BlockData>) -> (chunk: Option<ChunkData>)
        ensures
            chunk.is_some() == Self::spec_valid_len(voxels@.len()),
            chunk.is_some() ==> chunk.unwrap()@ == voxels@,
    {
        if voxels.len() == 1 || voxels.len() == CHUNK_SIZE3 {
            Some(ChunkData { voxels })
        } else {
            None
        }
    }

    /// The entries of the chunk.
    pub fn voxels(&self) -> (voxels: &Vec<BlockData>)
        ensures
            voxels@ == self@,
            Self::spec_valid_len(self@.len()),
    {
        proof {
            use_type_invariant(self);
        }
        &self.voxels
    }

    /// The voxel at linear index `index`.
    pub fn get_block(&self, index: usize) -> (block: &BlockData)
        requires
            self.is_uniform() || index < 32768,
        ensures
            *block == self.spec_get_block(index as int),
            Self::spec_valid_len(self@.len()),
    {
        proof {
            use_type_invariant(self);
        }
        if self.voxels.len() == 1 {
            &self.voxels[0]
        } else {
            &self.voxels[index]
        }
    }

    /// The block that fills the chunk, if the chunk is uniform.
    pub fn get_block_if_filled(&self) -> (block: Option<&BlockData>)
        ensures
            self.is_uniform() ==> block == Some(&self@[0]),
            !self.is_uniform() ==> block.is_none(),
            Self::spec_valid_len(self@.len()),
    {
        proof {
            use_type_invariant(self);
        }
        if self.voxels.len() == 1 {
            Some(&self.voxels[0])
        } else {
            None
        }
    }

    /// Writes the voxels of a uniform chunk out one by one; a chunk that is
    /// not uniform stays as it is.
    pub fn expand(&mut self)
        ensures
            final(self)@ == old(self).expanded(),
            final(self)@.len() == 32768,
    {
        proof {
            use_type_invariant(&*self);
        }
        if self.voxels.len() == 1 {
            let value = self.voxels[0];
            let mut voxels: Vec<BlockData> = Vec::new();
            let mut i: usize = 0;
            while i < CHUNK_SIZE3
                invariant
                    i <= CHUNK_SIZE3,
                    voxels@.len() == i,
                    forall|j: int| 0 <= j < i ==> voxels@[j] == value,
                decreases CHUNK_SIZE3 - i,
            {
                voxels.push(value);
                i += 1;
            }
            assert(voxels@ =~= old(self).expanded());
            self.voxels = voxels;
        }
    }

    /// Sets the voxel at linear index `index` to the block `block_type`,
    /// expanding a uniform chunk first.
    pub fn set_block(&mut self, index: usize, block: BlockData)
        requires
            index < 32768,
        ensures
            final(self)@ == spec_set_block(old(self)@, index as int, block),
            final(self)@.len() == 32768,
    {
        self.expand();
        self.voxels[index] = block;
    }
}

/// A list of voxels written out one by one: the list itself unless it has
/// one entry, else 32768 copies of that entry.
pub open spec fn spec_expand(voxels: Seq<BlockData>) -> Seq<BlockData> {
    if voxels.len() == 1 {
        Seq::new(32768, |i: int| voxels[0])
    } else {
        voxels
    }
}

/// The voxels of a chunk after the voxel at `index` is set to `block`.
pub open spec fn spec_set_block(voxels: Seq<BlockData>, index: int, block: BlockData) -> Seq<
    BlockData,
> {
    spec_expand(voxels).update(index, block)
}

} // verus!
