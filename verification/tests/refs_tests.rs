use new_voxel_testing::cell_grid::{sample_cell, CellGrid};
use new_voxel_testing::chunk::ChunkData;
use new_voxel_testing::chunk_key::{chunk_key, key_chunk};
use new_voxel_testing::chunk_map::ChunkMap;
use new_voxel_testing::chunks_refs::{neighbour, ChunksRefs};
use new_voxel_testing::lod::Lod;
use new_voxel_testing::math::IVec3;
use new_voxel_testing::voxel::{
    Block, BlockData, BlockFlags, BlockId, BlockRegistry, BlockStringIdentifier, BlockVisibilty,
};
use std::sync::Arc;

fn c(x: i32, y: i32, z: i32) -> IVec3 {
    IVec3::new(x, y, z)
}

/// A neighbourhood in which each voxel holds a block that tells its place.
fn numbered_refs() -> ChunksRefs {
    let mut chunks = Vec::new();
    for index in 0..27u16 {
        let voxels = (0..32768u32)
            .map(|i| BlockData { block_type: BlockId(index * 1000 + (i % 1000) as u16) })
            .collect();
        chunks.push(Arc::new(ChunkData::from_voxels(voxels).unwrap()));
    }
    ChunksRefs::from_chunks(chunks).unwrap()
}

fn registry() -> BlockRegistry {
    let mut registry = BlockRegistry::new();
    let mut add = |name: &str, visibility: BlockVisibilty| {
        registry.add_block(
            BlockStringIdentifier(name.to_string()),
            &Block { visibility, collision: false },
        );
    };
    add("air", BlockVisibilty::Invisible);
    add("dirt", BlockVisibilty::Solid);
    add("grass", BlockVisibilty::Solid);
    add("glass", BlockVisibilty::Transparent);
    registry
}

#[test]
fn keys_place_coordinates_side_by_side() {
    assert_eq!(chunk_key(c(i32::MIN, i32::MIN, i32::MIN)), 0);
    assert_eq!(chunk_key(c(i32::MIN, i32::MIN, 0)), 1 << 31);
    assert_eq!(chunk_key(c(0, 0, 0)), (1u128 << 95) + (1u128 << 63) + (1u128 << 31));
    assert_eq!(chunk_key(c(i32::MAX, i32::MAX, i32::MAX)), (1u128 << 96) - 1);
    for point in [c(0, 0, 0), c(-1, 2, -3), c(i32::MAX, i32::MIN, 7), c(5, i32::MAX, i32::MIN)] {
        assert_eq!(key_chunk(chunk_key(point)), point);
    }
    assert_ne!(chunk_key(c(1, 0, 0)), chunk_key(c(0, 1, 0)));
    assert_ne!(chunk_key(c(0, 1, 0)), chunk_key(c(0, 0, 1)));
}

#[test]
fn neighbourhood_needs_27_chunks() {
    let chunk = || Arc::new(ChunkData::filled(BlockData::default()));
    assert!(ChunksRefs::from_chunks((0..26).map(|_| chunk()).collect()).is_none());
    assert!(ChunksRefs::from_chunks((0..28).map(|_| chunk()).collect()).is_none());
    assert!(ChunksRefs::from_chunks((0..27).map(|_| chunk()).collect()).is_some());
}

#[test]
fn neighbours_are_counted_x_first() {
    assert_eq!(neighbour(c(10, 20, 30), 0), Some(c(9, 19, 29)));
    assert_eq!(neighbour(c(10, 20, 30), 1), Some(c(10, 19, 29)));
    assert_eq!(neighbour(c(10, 20, 30), 3), Some(c(9, 20, 29)));
    assert_eq!(neighbour(c(10, 20, 30), 9), Some(c(9, 19, 30)));
    assert_eq!(neighbour(c(10, 20, 30), 13), Some(c(10, 20, 30)));
    assert_eq!(neighbour(c(10, 20, 30), 26), Some(c(11, 21, 31)));
    assert_eq!(neighbour(c(i32::MAX, 0, 0), 13), Some(c(i32::MAX, 0, 0)));
    assert_eq!(neighbour(c(i32::MAX, 0, 0), 14), None);
    assert_eq!(neighbour(c(0, i32::MIN, 0), 10), None);
}

#[test]
fn snapshot_needs_every_neighbour() {
    let mut world: ChunkMap<Arc<ChunkData>> = ChunkMap::new();
    for index in 0..27 {
        let at = neighbour(c(0, 0, 0), index).unwrap();
        let chunk = ChunkData::filled(BlockData { block_type: BlockId(index as u16) });
        world.insert(at, Arc::new(chunk));
    }
    let refs = ChunksRefs::try_new(&world, c(0, 0, 0)).unwrap();
    assert_eq!(refs.get_block(c(0, 0, 0)).block_type, BlockId(13));
    assert_eq!(refs.get_block(c(-1, 0, 0)).block_type, BlockId(12));
    assert_eq!(refs.get_block(c(32, 0, 0)).block_type, BlockId(14));
    assert_eq!(refs.get_block(c(0, -1, 0)).block_type, BlockId(10));
    assert_eq!(refs.get_block(c(0, 0, 32)).block_type, BlockId(22));
    assert_eq!(refs.get_block(c(-32, -32, -32)).block_type, BlockId(0));
    assert_eq!(refs.get_block(c(63, 63, 63)).block_type, BlockId(26));
    assert!(ChunksRefs::try_new(&world, c(1, 0, 0)).is_none());
    world.remove(c(-1, 1, 1));
    assert!(ChunksRefs::try_new(&world, c(0, 0, 0)).is_none());
}

#[test]
fn blocks_are_found_by_chunk_and_index() {
    let refs = numbered_refs();
    let id = |chunk: u32, index: u32| BlockId((chunk * 1000 + index % 1000) as u16);
    assert_eq!(refs.get_block(c(0, 0, 0)).block_type, id(13, 0));
    assert_eq!(refs.get_block(c(3, 4, 5)).block_type, id(13, 3 + 4 * 32 + 5 * 1024));
    assert_eq!(refs.get_block_no_neighbour(c(3, 4, 5)).block_type, id(13, 3 + 4 * 32 + 5 * 1024));
    assert_eq!(refs.get_block(c(-1, 4, 5)).block_type, id(12, 31 + 4 * 32 + 5 * 1024));
    assert_eq!(refs.get_block(c(3, 32, 5)).block_type, id(16, 3 + 5 * 1024));
    assert_eq!(refs.get_block(c(3, 4, -2)).block_type, id(4, 3 + 4 * 32 + 30 * 1024));
    assert_eq!(refs.get_block(c(33, -1, 40)).block_type, id(14 - 3 + 9, 1 + 31 * 32 + 8 * 1024));
}

#[test]
fn cells_take_flags_and_the_most_frequent_block() {
    let mut voxels = vec![BlockData::default(); 32768];
    let mut set = |x: usize, y: usize, z: usize, id: u16| {
        voxels[x + y * 32 + z * 1024] = BlockData { block_type: BlockId(id) };
    };
    set(0, 0, 0, 3);
    set(1, 0, 0, 3);
    set(0, 1, 0, 1);
    set(2, 0, 0, 2);
    set(3, 0, 0, 1);
    let middle = Arc::new(ChunkData::from_voxels(voxels).unwrap());
    let air = Arc::new(ChunkData::filled(BlockData::default()));
    let chunks = (0..27).map(|i| if i == 13 { middle.clone() } else { air.clone() }).collect();
    let refs = ChunksRefs::from_chunks(chunks).unwrap();
    let registry = registry();

    let cell = sample_cell(&refs, &registry, BlockFlags::solid(), Lod::L32, c(0, 1, 0));
    assert_eq!((cell.target, cell.solid, cell.id), (true, true, 1));
    let cell = sample_cell(&refs, &registry, BlockFlags::solid(), Lod::L32, c(0, 0, 0));
    assert_eq!((cell.target, cell.solid, cell.id), (false, false, 0));
    let cell = sample_cell(&refs, &registry, BlockFlags::transparent(), Lod::L32, c(0, 0, 0));
    assert_eq!((cell.target, cell.solid, cell.id), (true, false, 3));
    let cell = sample_cell(&refs, &registry, BlockFlags::solid(), Lod::L32, c(-1, 0, 32));
    assert_eq!((cell.target, cell.solid, cell.id), (false, false, 0));

    let cell = sample_cell(&refs, &registry, BlockFlags::solid(), Lod::L16, c(0, 0, 0));
    assert_eq!((cell.target, cell.solid, cell.id), (true, true, 1));
    let cell = sample_cell(&refs, &registry, BlockFlags::transparent(), Lod::L16, c(0, 0, 0));
    assert_eq!((cell.target, cell.solid, cell.id), (true, true, 3));
    let cell = sample_cell(&refs, &registry, BlockFlags::solid(), Lod::L16, c(1, 0, 0));
    assert_eq!((cell.target, cell.solid, cell.id), (true, true, 1));
    let cell = sample_cell(&refs, &registry, BlockFlags::solid(), Lod::L2, c(0, 0, 0));
    assert_eq!((cell.target, cell.solid, cell.id), (true, true, 1));
    let cell = sample_cell(&refs, &registry, BlockFlags::solid(), Lod::L2, c(1, 1, 1));
    assert_eq!((cell.target, cell.solid, cell.id), (false, false, 0));

    let grid = CellGrid::build(&refs, &registry, BlockFlags::solid(), Lod::L16);
    assert_eq!(grid.cell(0, 0, 0).id, 1);
    assert!(grid.cell(1, 0, 0).target);
    assert!(!grid.cell(2, 0, 0).target);
    assert!(!grid.cell(-1, 0, 0).target);
    assert!(!grid.cell(16, 16, 16).solid);
}
