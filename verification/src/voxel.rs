use vstd::prelude::*;

verus! {

/// The durable name of a block type, stable as block types are added and
/// removed.
#[derive(Default, Clone, Debug, PartialEq, Eq, PartialOrd, Ord, Hash)]
pub struct BlockStringIdentifier(pub String);

/// The in-memory identifier of a block type: its position in the registry.
/// Identifiers are dense; 0 is air.
#[derive(Default, Copy, Clone, Debug, PartialEq, Eq, Structural, Hash)]
pub struct BlockId(pub u16);

/// A set of block properties, one bit each.
#[derive(Copy, Clone, Debug, PartialEq, Eq, Structural, Hash)]
pub struct BlockFlags {
    pub bits: u8,
}

impl BlockFlags {
    /// Whether every flag of `other` is in `self`.
    pub open spec fn spec_contains(self, other: BlockFlags) -> bool {
        self.bits & other.bits == other.bits
    }

    /// The flags that are in `self` or in `other`.
    pub open spec fn spec_union(self, other: BlockFlags) -> BlockFlags {
        BlockFlags { bits: self.bits | other.bits }
    }

    /// No flag.
    pub fn empty() -> (flags: BlockFlags)
        ensures
            flags.bits == 0,
    {
        BlockFlags { bits: 0 }
    }

    /// A solid block: it appears in the opaque mesh.
    pub fn solid() -> (flags: BlockFlags)
        ensures
            flags.bits == 1,
    {
        BlockFlags { bits: 1 }
    }

    /// A transparent block: it appears in the transparent mesh.
    pub fn transparent() -> (flags: BlockFlags)
        ensures
            flags.bits == 2,
    {
        BlockFlags { bits: 2 }
    }

    /// A block with collision: it affects the collision mesh.
    pub fn collision() -> (flags: BlockFlags)
        ensures
            flags.bits == 4,
    {
        BlockFlags { bits: 4 }
    }

    /// The underlying bits.
    pub fn bits(&self) -> (bits: u8)
        ensures
            bits == self.bits,
    {
        self.bits
    }

    /// Whether every flag of `other` is in `self`.
    pub fn contains(&self, other: BlockFlags) -> (r: bool)
        ensures
            r == self.spec_contains(other),
    {
        self.bits & other.bits == other.bits
    }

    /// The flags that are in `self` or in `other`.
    pub fn union(self, other: BlockFlags) -> (r: BlockFlags)
        ensures
            r == self.spec_union(other),
    {
        BlockFlags { bits: self.bits | other.bits }
    }
}

/// How a block is drawn.
#[derive(Copy, Clone, Debug, PartialEq, Eq, Structural)]
pub enum BlockVisibilty {
    Solid,
    Transparent,
    Invisible,
}

/// The description of a block type, as handed to the registry.
#[derive(Copy, Clone, Debug)]
pub struct Block {
    pub visibility: BlockVisibilty,
    pub collision: bool,
}

impl Default for Block {
    fn default() -> (block: Block)
        ensures
            block.visibility == BlockVisibilty::Solid,
            block.collision,
    {
        Block { visibility: BlockVisibilty::Solid, collision: true }
    }
}

impl Block {
    /// The flags of a block with this description: one of solid,
    /// transparent or neither by its visibility, and collision if it has it.
    pub open spec fn spec_flags(self) -> BlockFlags {
        let base: u8 = match self.visibility {
            BlockVisibilty::Solid => 1u8,
            BlockVisibilty::Transparent => 2u8,
            BlockVisibilty::Invisible => 0u8,
        };
        BlockFlags { bits: base | (if self.collision { 4u8 } else { 0u8 }) }
    }

    /// The flags of a block with this description.
    pub fn flags(&self) -> (flags: BlockFlags)
        ensures
            flags == self.spec_flags(),
    {
        let mut flags = match self.visibility {
            BlockVisibilty::Solid => BlockFlags::solid(),
            BlockVisibilty::Transparent => BlockFlags::transparent(),
            BlockVisibilty::Invisible => BlockFlags::empty(),
        };
        if self.collision {
            flags = flags.union(BlockFlags::collision());
        } else {
            assert(flags.bits | 0u8 == flags.bits) by (bit_vector);
        }
        flags
    }

    /// The flags of a description hold solid exactly for a solid block,
    /// transparent exactly for a transparent one, never both, and collision
    /// exactly where the description has it.
    pub proof fn lemma_flags(self)
        ensures
            self.spec_flags().spec_contains(BlockFlags { bits: 1 }) <==> self.visibility
                == BlockVisibilty::Solid,
            self.spec_flags().spec_contains(BlockFlags { bits: 2 }) <==> self.visibility
                == BlockVisibilty::Transparent,
            self.spec_flags().spec_contains(BlockFlags { bits: 4 }) <==> self.collision,
    {
        assert((1u8 | 4u8) & 1u8 == 1u8 && (1u8 | 4u8) & 2u8 != 2u8 && (1u8 | 4u8) & 4u8 == 4u8 && (
        1u8 | 0u8) & 1u8 == 1u8 && (1u8 | 0u8) & 2u8 != 2u8 && (1u8 | 0u8) & 4u8 != 4u8 && (2u8
            | 4u8) & 1u8 != 1u8 && (2u8 | 4u8) & 2u8 == 2u8 && (2u8 | 4u8) & 4u8 == 4u8 && (2u8
            | 0u8) & 1u8 != 1u8 && (2u8 | 0u8) & 2u8 == 2u8 && (2u8 | 0u8) & 4u8 != 4u8 && (0u8
            | 4u8) & 1u8 != 1u8 && (0u8 | 4u8) & 2u8 != 2u8 && (0u8 | 4u8) & 4u8 == 4u8 && (0u8
            | 0u8) & 1u8 != 1u8 && (0u8 | 0u8) & 2u8 != 2u8 && (0u8 | 0u8) & 4u8 != 4u8)
            by (bit_vector);
    }
}

/// What a voxel holds.
#[derive(Default, Copy, Clone, Debug, PartialEq, Eq, Structural)]
pub struct BlockData {
    pub block_type: BlockId,
}

/// The block types known to the engine: parallel arrays indexed by
/// [`BlockId`]. Block types are only ever appended.
#[derive(Default, Debug)]
pub struct BlockRegistry {
    /// Maps block id to block string identifier.
    pub block_id_to_string_identifier: Vec<BlockStringIdentifier>,
    /// Maps block id to block flags.
    pub block_flags: Vec<BlockFlags>,
}

impl BlockRegistry {
    /// The arrays of the registry have one entry per block type.
    pub open spec fn wf(&self) -> bool {
        self.block_id_to_string_identifier@.len() == self.block_flags@.len()
    }

    /// The flags that meshing sees for `block_id`: its own where the
    /// registry knows the block, else those of air, the block with id 0.
    pub open spec fn spec_flags_or_air(&self, block_id: BlockId) -> BlockFlags {
        if (block_id.0 as int) < self.block_flags@.len() {
            self.block_flags@[block_id.0 as int]
        } else if 0 < self.block_flags@.len() {
            self.block_flags@[0]
        } else {
            BlockFlags { bits: 0 }
        }
    }

    /// A registry without block types.
    pub fn new() -> (registry: BlockRegistry)
        ensures
            registry.wf(),
            registry.block_flags@.len() == 0,
            registry.block_id_to_string_identifier@.len() == 0,
    {
        BlockRegistry { block_id_to_string_identifier: Vec::new(), block_flags: Vec::new() }
    }

    /// Whether the block `block_id` is solid.
    pub fn is_solid(&self, block_id: BlockId) -> (solid: bool)
        requires
            (block_id.0 as int) < self.block_flags@.len(),
        ensures
            solid == self.block_flags@[block_id.0 as int].spec_contains(BlockFlags { bits: 1 }),
    {
        self.block_flags[block_id.0 as usize].contains(BlockFlags::solid())
    }

    /// Whether the block `block_id` has every flag of `flag`.
    pub fn has_flag(&self, block_id: BlockId, flag: BlockFlags) -> (has: bool)
        requires
            (block_id.0 as int) < self.block_flags@.len(),
        ensures
            has == self.block_flags@[block_id.0 as int].spec_contains(flag),
    {
        self.block_flags[block_id.0 as usize].contains(flag)
    }

    /// The flags that meshing sees for `block_id`; a block that the registry
    /// does not know counts as air.
    pub fn flags_or_air(&self, block_id: BlockId) -> (flags: BlockFlags)
        ensures
            flags == self.spec_flags_or_air(block_id),
    {
        if (block_id.0 as usize) < self.block_flags.len() {
            self.block_flags[block_id.0 as usize]
        } else if 0 < self.block_flags.len() {
            self.block_flags[0]
        } else {
            BlockFlags::empty()
        }
    }

    /// Appends a block type and returns its id: the number of block types
    /// before the call, as far as 16 bits hold it.
    pub fn add_block(&mut self, identifier: BlockStringIdentifier, block: &Block) -> (id: BlockId)
        requires
            old(self).wf(),
        ensures
            final(self).wf(),
            final(self).block_flags@ == old(self).block_flags@.push(block.spec_flags()),
            final(self).block_id_to_string_identifier@ == old(
                self,
            ).block_id_to_string_identifier@.push(identifier),
            id.0 as int == old(self).block_flags@.len() % 0x10000,
    {
        let flags = block.flags();
        let len: usize = self.block_id_to_string_identifier.len();
        let low: usize = len % 0x10000;
        let block_id = BlockId(low as u16);
        self.block_id_to_string_identifier.push(identifier);
        self.block_flags.push(flags);
        block_id
    }
}

} // verus!
