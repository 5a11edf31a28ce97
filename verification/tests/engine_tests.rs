use new_voxel_testing::chunk::ChunkData;
use new_voxel_testing::events::{ChunkGenerated, ChunkModified, ChunkUnloaded};
use new_voxel_testing::lod::Lod;
use new_voxel_testing::math::IVec3;
use new_voxel_testing::scanner::{
    scan, ChunkGainedScannerRelevance, ChunkLostScannerRelevance, ChunkPos, DataScanner,
    GlobalScannerDesiredChunks, Scanner,
};
use new_voxel_testing::voxel::{BlockData, BlockId};
use new_voxel_testing::voxel_engine::{
    join_data, start_data_tasks, start_modifications, unload_data, ChunkModification,
    MeshingMethod, TaskPoll, VoxelEngine, MAX_DATA_TASKS,
};
use std::collections::HashSet;
use std::sync::Arc;

fn c(x: i32, y: i32, z: i32) -> IVec3 {
    IVec3::new(x, y, z)
}

fn gained(chunks: &[IVec3]) -> Vec<ChunkGainedScannerRelevance<DataScanner>> {
    chunks.iter().map(|chunk| ChunkGainedScannerRelevance::new(*chunk)).collect()
}

fn lost(chunks: &[IVec3]) -> Vec<ChunkLostScannerRelevance<DataScanner>> {
    chunks.iter().map(|chunk| ChunkLostScannerRelevance::new(*chunk)).collect()
}

fn solid_chunk() -> ChunkData {
    ChunkData::filled(BlockData { block_type: BlockId(2) })
}

fn desired(chunks: &[IVec3]) -> GlobalScannerDesiredChunks<DataScanner> {
    let mut global = GlobalScannerDesiredChunks::new();
    global.chunks.extend(&chunks.to_vec());
    global
}

fn set_of(events: &[ChunkModified]) -> HashSet<(i32, i32, i32)> {
    events.iter().map(|e| (e.0.x, e.0.y, e.0.z)).collect()
}

#[test]
fn new_engine_is_empty() {
    let engine = VoxelEngine::default();
    assert_eq!(engine.world_data.len(), 0);
    assert_eq!(engine.load_data_queue.len(), 0);
    assert_eq!(engine.unload_data_queue.len(), 0);
    assert_eq!(engine.data_tasks.len(), 0);
    assert_eq!(engine.chunk_modifications.len(), 0);
    assert_eq!(engine.lod, Lod::L32);
    assert_eq!(engine.meshing_method, MeshingMethod::BinaryGreedyMeshing);
    assert_eq!(MAX_DATA_TASKS, 64);
}

#[test]
fn nearest_chunks_start_first() {
    let mut engine = VoxelEngine::default();
    let observers = vec![ChunkPos(c(0, 0, 0))];
    let events = gained(&[c(3, 0, 0), c(0, 1, 0), c(0, 0, 0), c(-2, 0, 0), c(0, 0, 1)]);
    let started = start_data_tasks(&mut engine, &observers, &events);
    assert_eq!(started, vec![c(0, 0, 0), c(0, 1, 0), c(0, 0, 1), c(-2, 0, 0), c(3, 0, 0)]);
    assert_eq!(engine.load_data_queue.len(), 0);
    assert_eq!(engine.data_tasks.len(), 5);
    assert!(engine.data_tasks.contains(c(3, 0, 0)));
}

#[test]
fn at_most_the_cap_of_tasks_runs() {
    let mut engine = VoxelEngine::default();
    let observers = vec![ChunkPos(c(0, 0, 0))];
    let chunks: Vec<IVec3> = (0..100).map(|x| c(x, 0, 0)).collect();
    let started = start_data_tasks(&mut engine, &observers, &gained(&chunks));
    assert_eq!(started, chunks[..64].to_vec());
    assert_eq!(engine.data_tasks.len(), 64);
    assert_eq!(engine.load_data_queue.to_vec(), chunks[64..].to_vec());
    let none = start_data_tasks(&mut engine, &observers, &gained(&[]));
    assert_eq!(none, vec![]);
    assert_eq!(engine.load_data_queue.len(), 36);
    let polled: Vec<(IVec3, TaskPoll<ChunkData>)> = chunks[..10]
        .iter()
        .map(|chunk| (*chunk, TaskPoll::Ready(solid_chunk())))
        .collect();
    join_data(&mut engine, &desired(&chunks), polled);
    assert_eq!(engine.data_tasks.len(), 54);
    let more = start_data_tasks(&mut engine, &observers, &gained(&[]));
    assert_eq!(more, chunks[64..74].to_vec());
    assert_eq!(engine.data_tasks.len(), 64);
}

#[test]
fn queue_is_sorted_only_when_chunks_come_in() {
    let mut engine = VoxelEngine::default();
    engine.load_data_queue.extend(&vec![c(9, 0, 0), c(1, 0, 0)]);
    engine.data_tasks.extend(&(0..63).map(|x| c(x, 50, 0)).collect());
    let observers = vec![ChunkPos(c(0, 0, 0))];
    let started = start_data_tasks(&mut engine, &observers, &gained(&[]));
    assert_eq!(started, vec![c(9, 0, 0)]);
    assert_eq!(engine.load_data_queue.to_vec(), vec![c(1, 0, 0)]);
}

#[test]
fn repeated_gains_queue_a_chunk_once() {
    let mut engine = VoxelEngine::default();
    engine.data_tasks.extend(&(0..64).map(|x| c(x, 50, 0)).collect());
    let observers = vec![ChunkPos(c(0, 0, 0))];
    start_data_tasks(&mut engine, &observers, &gained(&[c(2, 0, 0), c(1, 0, 0), c(2, 0, 0)]));
    start_data_tasks(&mut engine, &observers, &gained(&[c(1, 0, 0)]));
    assert_eq!(engine.load_data_queue.to_vec(), vec![c(1, 0, 0), c(2, 0, 0)]);
}

#[test]
fn joined_data_enters_the_world() {
    let mut engine = VoxelEngine::default();
    let observers = vec![ChunkPos(c(0, 0, 0))];
    start_data_tasks(&mut engine, &observers, &gained(&[c(0, 0, 0), c(1, 0, 0), c(2, 0, 0)]));
    let global = desired(&[c(0, 0, 0), c(1, 0, 0), c(2, 0, 0)]);
    let polled = vec![
        (c(0, 0, 0), TaskPoll::Ready(solid_chunk())),
        (c(1, 0, 0), TaskPoll::Pending),
        (c(2, 0, 0), TaskPoll::Missing),
    ];
    let joined = join_data(&mut engine, &global, polled);
    assert_eq!(joined.events, vec![ChunkGenerated(c(0, 0, 0))]);
    assert_eq!(joined.missing, 1);
    assert_eq!(engine.world_data.len(), 1);
    assert_eq!(
        engine.world_data.get(c(0, 0, 0)).unwrap().get_block(5).block_type,
        BlockId(2)
    );
    assert_eq!(engine.data_tasks.to_vec(), vec![c(1, 0, 0)]);
}

#[test]
fn stale_data_is_dropped() {
    let mut engine = VoxelEngine::default();
    let observers = vec![ChunkPos(c(0, 0, 0))];
    start_data_tasks(&mut engine, &observers, &gained(&[c(0, 0, 0), c(1, 0, 0)]));
    let global = desired(&[c(1, 0, 0)]);
    let polled = vec![
        (c(0, 0, 0), TaskPoll::Ready(solid_chunk())),
        (c(1, 0, 0), TaskPoll::Ready(solid_chunk())),
    ];
    let joined = join_data(&mut engine, &global, polled);
    assert_eq!(joined.events, vec![ChunkGenerated(c(1, 0, 0))]);
    assert_eq!(joined.missing, 0);
    assert!(!engine.world_data.contains_key(c(0, 0, 0)));
    assert!(engine.world_data.contains_key(c(1, 0, 0)));
    assert_eq!(engine.data_tasks.len(), 0);
}

#[test]
fn unloading_lets_go_of_data_and_queue() {
    let mut engine = VoxelEngine::default();
    engine.world_data.insert(c(0, 0, 0), Arc::new(solid_chunk()));
    engine.world_data.insert(c(1, 0, 0), Arc::new(solid_chunk()));
    engine.load_data_queue.extend(&vec![c(5, 0, 0), c(6, 0, 0), c(7, 0, 0)]);
    engine.unload_data_queue.push(c(5, 0, 0));
    let events = unload_data(&mut engine, &lost(&[c(0, 0, 0), c(9, 9, 9)]));
    assert_eq!(
        events,
        vec![ChunkUnloaded(c(5, 0, 0)), ChunkUnloaded(c(0, 0, 0)), ChunkUnloaded(c(9, 9, 9))]
    );
    assert_eq!(engine.world_data.keys(), vec![c(1, 0, 0)]);
    assert_eq!(engine.load_data_queue.to_vec(), vec![c(7, 0, 0), c(6, 0, 0)]);
    assert_eq!(engine.unload_data_queue.len(), 0);
}

#[test]
fn observer_with_radius_one_loads_its_box() {
    let mut engine = VoxelEngine::default();
    let mut global = GlobalScannerDesiredChunks::<DataScanner>::new();
    let scanners = vec![(Scanner::<DataScanner>::new(1, Some(1)), ChunkPos(c(0, 0, 0)))];
    let observers = vec![ChunkPos(c(0, 0, 0))];
    let events = scan(true, false, &scanners, &mut global);
    assert_eq!(events.gained.len(), 64);
    let mut started = start_data_tasks(&mut engine, &observers, &events.gained);
    assert_eq!(started.len(), 64);
    assert_eq!(started[0], c(0, 0, 0));
    let mut generated = 0;
    while !started.is_empty() {
        let polled = started.iter().map(|p| (*p, TaskPoll::Ready(solid_chunk()))).collect();
        generated += join_data(&mut engine, &global, polled).events.len();
        started = start_data_tasks(&mut engine, &observers, &vec![]);
    }
    assert_eq!(generated, 64);
    assert_eq!(engine.world_data.len(), 64);
    assert_eq!(engine.data_tasks.len(), 0);
    for x in -2..2 {
        for y in -2..2 {
            for z in -2..2 {
                assert!(engine.world_data.contains_key(c(x, y, z)));
            }
        }
    }
    let scanners = vec![(Scanner::<DataScanner>::new(1, Some(1)), ChunkPos(c(1, 0, 0)))];
    let events = scan(true, false, &scanners, &mut global);
    let unloaded = unload_data(&mut engine, &events.lost);
    assert_eq!(unloaded.len(), 16);
    assert!(unloaded.iter().all(|e| e.0.x == -2));
    assert_eq!(engine.world_data.len(), 48);
}

#[test]
fn edit_of_a_corner_voxel_expands_and_tells_the_neighbour() {
    let mut engine = VoxelEngine::default();
    engine.world_data.insert(c(4, 5, 6), Arc::new(solid_chunk()));
    let shared = engine.world_data.get(c(4, 5, 6)).unwrap().clone();
    engine
        .chunk_modifications
        .insert(c(4, 5, 6), vec![ChunkModification(c(0, 0, 0), BlockId(0))]);
    let events = start_modifications(&mut engine);
    let expected: HashSet<(i32, i32, i32)> = [(4, 5, 6), (3, 4, 5)].into_iter().collect();
    assert_eq!(events.len(), 2);
    assert_eq!(set_of(&events), expected);
    let chunk = engine.world_data.get(c(4, 5, 6)).unwrap();
    assert_eq!(chunk.voxels().len(), 32768);
    assert_eq!(chunk.get_block(0).block_type, BlockId(0));
    assert_eq!(chunk.voxels().iter().filter(|b| b.block_type != BlockId(2)).count(), 1);
    assert_eq!(shared.voxels().len(), 1);
    assert_eq!(engine.chunk_modifications.len(), 0);
}

#[test]
fn edits_are_applied_in_order_at_their_index() {
    let mut engine = VoxelEngine::default();
    engine.world_data.insert(c(0, 0, 0), Arc::new(solid_chunk()));
    engine.chunk_modifications.insert(
        c(0, 0, 0),
        vec![
            ChunkModification(c(3, 4, 5), BlockId(7)),
            ChunkModification(c(31, 10, 10), BlockId(8)),
            ChunkModification(c(3, 4, 5), BlockId(9)),
            ChunkModification(c(10, 10, 31), BlockId(1)),
        ],
    );
    let events = start_modifications(&mut engine);
    let expected: HashSet<(i32, i32, i32)> =
        [(0, 0, 0), (1, 0, 0), (0, 0, 1)].into_iter().collect();
    assert_eq!(events.len(), 3);
    assert_eq!(set_of(&events), expected);
    let chunk = engine.world_data.get(c(0, 0, 0)).unwrap();
    assert_eq!(chunk.get_block(3 + 4 * 32 + 5 * 1024).block_type, BlockId(9));
    assert_eq!(chunk.get_block(31 + 10 * 32 + 10 * 1024).block_type, BlockId(8));
    assert_eq!(chunk.get_block(10 + 10 * 32 + 31 * 1024).block_type, BlockId(1));
    assert_eq!(chunk.voxels().iter().filter(|b| b.block_type != BlockId(2)).count(), 3);
}

#[test]
fn edits_of_unloaded_chunks_are_dropped() {
    let mut engine = VoxelEngine::default();
    engine.world_data.insert(c(0, 0, 0), Arc::new(solid_chunk()));
    engine
        .chunk_modifications
        .insert(c(1, 0, 0), vec![ChunkModification(c(0, 0, 0), BlockId(0))]);
    engine.chunk_modifications.insert(c(0, 0, 0), vec![]);
    let events = start_modifications(&mut engine);
    assert_eq!(events, vec![ChunkModified(c(0, 0, 0))]);
    assert_eq!(engine.world_data.len(), 1);
    assert_eq!(engine.world_data.get(c(0, 0, 0)).unwrap().voxels().len(), 1);
    assert_eq!(engine.chunk_modifications.len(), 0);
    assert_eq!(start_modifications(&mut engine), vec![]);
}

#[test]
fn inner_edit_tells_only_its_chunk() {
    let mut engine = VoxelEngine::default();
    engine.world_data.insert(c(0, 0, 0), Arc::new(solid_chunk()));
    engine
        .chunk_modifications
        .insert(c(0, 0, 0), vec![ChunkModification(c(15, 16, 17), BlockId(0))]);
    assert_eq!(start_modifications(&mut engine), vec![ChunkModified(c(0, 0, 0))]);
}
