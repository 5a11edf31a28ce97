use new_voxel_testing::chunk::ChunkData;
use new_voxel_testing::voxel::{
    Block, BlockData, BlockFlags, BlockId, BlockRegistry, BlockStringIdentifier, BlockVisibilty,
};

fn name(text: &str) -> BlockStringIdentifier {
    BlockStringIdentifier(text.to_string())
}

fn registry() -> BlockRegistry {
    let mut registry = BlockRegistry::new();
    registry.add_block(name("air"), &Block { visibility: BlockVisibilty::Invisible, collision: false });
    registry.add_block(name("dirt"), &Block { visibility: BlockVisibilty::Solid, collision: true });
    registry.add_block(name("grass"), &Block { visibility: BlockVisibilty::Solid, collision: true });
    registry.add_block(
        name("glass"),
        &Block { visibility: BlockVisibilty::Transparent, collision: true },
    );
    registry
}

#[test]
fn ids_are_dense_and_in_insertion_order() {
    let mut registry = BlockRegistry::new();
    let air = registry
        .add_block(name("air"), &Block { visibility: BlockVisibilty::Invisible, collision: false });
    let dirt = registry.add_block(name("dirt"), &Block::default());
    let glass = registry.add_block(
        name("glass"),
        &Block { visibility: BlockVisibilty::Transparent, collision: false },
    );
    assert_eq!(air, BlockId(0));
    assert_eq!(dirt, BlockId(1));
    assert_eq!(glass, BlockId(2));
    assert_eq!(registry.block_flags.len(), 3);
    assert_eq!(registry.block_id_to_string_identifier[1], name("dirt"));
}

#[test]
fn visibility_maps_to_flags() {
    let solid = Block { visibility: BlockVisibilty::Solid, collision: false }.flags();
    let transparent = Block { visibility: BlockVisibilty::Transparent, collision: false }.flags();
    let invisible = Block { visibility: BlockVisibilty::Invisible, collision: false }.flags();
    let default = Block::default().flags();
    assert_eq!(solid.bits(), 1);
    assert_eq!(transparent.bits(), 2);
    assert_eq!(invisible.bits(), 0);
    assert_eq!(default.bits(), 5);
    assert_eq!(
        Block { visibility: BlockVisibilty::Transparent, collision: true }.flags().bits(),
        6
    );
    assert!(default.contains(BlockFlags::solid()));
    assert!(default.contains(BlockFlags::collision()));
    assert!(!default.contains(BlockFlags::transparent()));
    assert!(!(solid.contains(BlockFlags::solid()) && solid.contains(BlockFlags::transparent())));
    assert_eq!(BlockFlags::solid().union(BlockFlags::collision()).bits(), 5);
    assert_eq!(BlockFlags::empty().bits(), 0);
}

#[test]
fn registry_answers_for_known_blocks() {
    let registry = registry();
    assert!(!registry.is_solid(BlockId(0)));
    assert!(registry.is_solid(BlockId(1)));
    assert!(registry.is_solid(BlockId(2)));
    assert!(!registry.is_solid(BlockId(3)));
    assert!(registry.has_flag(BlockId(3), BlockFlags::transparent()));
    assert!(registry.has_flag(BlockId(3), BlockFlags::collision()));
    assert!(!registry.has_flag(BlockId(0), BlockFlags::collision()));
}

#[test]
fn unknown_block_counts_as_air() {
    let registry = registry();
    assert_eq!(registry.flags_or_air(BlockId(1)).bits(), 5);
    assert_eq!(registry.flags_or_air(BlockId(4)).bits(), 0);
    assert_eq!(registry.flags_or_air(BlockId(60000)).bits(), 0);
    assert_eq!(BlockRegistry::new().flags_or_air(BlockId(0)).bits(), 0);
}

#[test]
fn uniform_chunk_reads_its_entry_everywhere() {
    let chunk = ChunkData::filled(BlockData { block_type: BlockId(7) });
    assert_eq!(chunk.voxels().len(), 1);
    assert_eq!(chunk.get_block(0).block_type, BlockId(7));
    assert_eq!(chunk.get_block(32767).block_type, BlockId(7));
    assert_eq!(chunk.get_block_if_filled().map(|b| b.block_type), Some(BlockId(7)));
}

#[test]
fn chunk_takes_one_or_all_voxels() {
    assert!(ChunkData::from_voxels(vec![]).is_none());
    assert!(ChunkData::from_voxels(vec![BlockData::default(); 2]).is_none());
    assert!(ChunkData::from_voxels(vec![BlockData::default(); 32767]).is_none());
    assert!(ChunkData::from_voxels(vec![BlockData::default(); 1]).is_some());
    let mut voxels = vec![BlockData::default(); 32768];
    voxels[5251] = BlockData { block_type: BlockId(9) };
    let chunk = ChunkData::from_voxels(voxels).unwrap();
    assert!(chunk.get_block_if_filled().is_none());
    assert_eq!(chunk.get_block(5251).block_type, BlockId(9));
    assert_eq!(chunk.get_block(5250).block_type, BlockId(0));
}

#[test]
fn first_write_expands_a_uniform_chunk() {
    let mut chunk = ChunkData::filled(BlockData { block_type: BlockId(2) });
    chunk.set_block(1056, BlockData { block_type: BlockId(0) });
    assert_eq!(chunk.voxels().len(), 32768);
    let different: Vec<usize> = chunk
        .voxels()
        .iter()
        .enumerate()
        .filter(|(_, b)| b.block_type != BlockId(2))
        .map(|(i, _)| i)
        .collect();
    assert_eq!(different, vec![1056]);
    assert_eq!(chunk.get_block(1056).block_type, BlockId(0));
    let copy = chunk.clone();
    chunk.set_block(0, BlockData { block_type: BlockId(5) });
    assert_eq!(copy.get_block(0).block_type, BlockId(2));
    assert_eq!(chunk.get_block(0).block_type, BlockId(5));
}

#[test]
fn expanding_keeps_a_full_chunk() {
    let mut chunk = ChunkData::filled(BlockData { block_type: BlockId(3) });
    chunk.expand();
    assert_eq!(chunk.voxels().len(), 32768);
    assert!(chunk.voxels().iter().all(|b| b.block_type == BlockId(3)));
    chunk.set_block(7, BlockData { block_type: BlockId(1) });
    chunk.expand();
    assert_eq!(chunk.get_block(7).block_type, BlockId(1));
    assert_eq!(chunk.voxels().len(), 32768);
}
