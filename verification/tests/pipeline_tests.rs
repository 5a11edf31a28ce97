use new_voxel_testing::chunk::ChunkData;
use new_voxel_testing::chunk_mesh::ChunkMesh;
use new_voxel_testing::events::ChunkModified;
use new_voxel_testing::math::IVec3;
use new_voxel_testing::rendering::{
    join_mesh, start_mesh_tasks, unload_mesh, ChunkEntityType, ChunkMeshEntities, MeshAction,
    MeshTask, MeshingPipeline, MAX_MESH_TASKS,
};
use new_voxel_testing::scanner::{
    scan, ChunkGainedScannerRelevance, ChunkLostScannerRelevance, ChunkPos,
    GlobalScannerDesiredChunks, MeshScanner, Scanner,
};
use new_voxel_testing::utils::make_vertex_u32;
use new_voxel_testing::voxel::{
    Block, BlockData, BlockId, BlockRegistry, BlockStringIdentifier, BlockVisibilty,
};
use new_voxel_testing::voxel_engine::{TaskPoll, VoxelEngine};
use std::sync::Arc;

fn c(x: i32, y: i32, z: i32) -> IVec3 {
    IVec3::new(x, y, z)
}

fn gained(chunks: &[IVec3]) -> Vec<ChunkGainedScannerRelevance<MeshScanner>> {
    chunks.iter().map(|chunk| ChunkGainedScannerRelevance::new(*chunk)).collect()
}

fn lost(chunks: &[IVec3]) -> Vec<ChunkLostScannerRelevance<MeshScanner>> {
    chunks.iter().map(|chunk| ChunkLostScannerRelevance::new(*chunk)).collect()
}

fn desired(chunks: &[IVec3]) -> GlobalScannerDesiredChunks<MeshScanner> {
    let mut global = GlobalScannerDesiredChunks::new();
    global.chunks.extend(&chunks.to_vec());
    global
}

fn engine_with_box(low: i32, high: i32, block: u16) -> VoxelEngine {
    let mut engine = VoxelEngine::default();
    for x in low..=high {
        for y in low..=high {
            for z in low..=high {
                let chunk = ChunkData::filled(BlockData { block_type: BlockId(block) });
                engine.world_data.insert(c(x, y, z), Arc::new(chunk));
            }
        }
    }
    engine
}

fn quad_mesh(x: i32) -> ChunkMesh {
    let vertices = vec![
        make_vertex_u32(c(x, 1, 2), 0, 2, 1),
        make_vertex_u32(c(x, 1, 5), 0, 2, 1),
        make_vertex_u32(c(x + 3, 1, 5), 0, 2, 1),
        make_vertex_u32(c(x + 3, 1, 2), 0, 2, 1),
    ];
    ChunkMesh { indices: vec![0, 1, 2, 0, 2, 3], vertices }
}

fn describe(actions: &[MeshAction]) -> Vec<String> {
    actions
        .iter()
        .map(|action| match action {
            MeshAction::Despawn(chunk) => format!("despawn {:?}", (chunk.x, chunk.y, chunk.z)),
            MeshAction::Spawn(spawn) => format!(
                "spawn {:?} {:?}",
                (spawn.chunk.x, spawn.chunk.y, spawn.chunk.z),
                spawn.parts.iter().map(|part| part.kind).collect::<Vec<_>>()
            ),
        })
        .collect()
}

#[test]
fn mesh_starts_only_with_all_neighbours() {
    let mut engine = engine_with_box(-1, 1, 2);
    let mut pipeline = MeshingPipeline::default();
    let global = desired(&[c(0, 0, 0), c(1, 0, 0)]);
    let observers = vec![ChunkPos(c(0, 0, 0))];
    let jobs = start_mesh_tasks(
        &mut pipeline,
        &engine,
        &observers,
        &gained(&[c(0, 0, 0), c(1, 0, 0)]),
        &vec![],
        &global,
    );
    assert_eq!(jobs.len(), 1);
    assert_eq!(jobs[0].chunk, c(0, 0, 0));
    assert_eq!(pipeline.mesh_tasks, vec![c(0, 0, 0)]);
    assert_eq!(pipeline.load_mesh_queue.to_vec(), vec![c(1, 0, 0)]);
    for y in -1..=1 {
        for z in -1..=1 {
            let chunk = ChunkData::filled(BlockData { block_type: BlockId(2) });
            engine.world_data.insert(c(2, y, z), Arc::new(chunk));
        }
    }
    let jobs = start_mesh_tasks(&mut pipeline, &engine, &observers, &vec![], &vec![], &global);
    assert_eq!(jobs.len(), 1);
    assert_eq!(jobs[0].chunk, c(1, 0, 0));
    assert_eq!(pipeline.mesh_tasks, vec![c(0, 0, 0), c(1, 0, 0)]);
    assert_eq!(pipeline.load_mesh_queue.len(), 0);
}

#[test]
fn surrounded_uniform_chunk_meshes_to_nothing() {
    let engine = engine_with_box(-1, 1, 1);
    let mut global = GlobalScannerDesiredChunks::<MeshScanner>::new();
    let scanners = vec![(Scanner::<MeshScanner>::new(0, None), ChunkPos(c(0, 0, 0)))];
    let events = scan(true, false, &scanners, &mut global);
    assert_eq!(events.gained.len(), 8);
    let mut pipeline = MeshingPipeline::default();
    let observers = vec![ChunkPos(c(0, 0, 0))];
    let jobs = start_mesh_tasks(&mut pipeline, &engine, &observers, &events.gained, &vec![], &global);
    assert_eq!(jobs.len(), 1);
    assert_eq!(jobs[0].chunk, c(0, 0, 0));
    let mut registry = BlockRegistry::new();
    registry.add_block(
        BlockStringIdentifier("air".to_string()),
        &Block { visibility: BlockVisibilty::Invisible, collision: false },
    );
    registry.add_block(BlockStringIdentifier("dirt".to_string()), &Block::default());
    let task = jobs[0].run(engine.lod, &registry);
    assert!(task.opaque.is_none());
    assert!(task.transparent.is_none());
    let mut entities = ChunkMeshEntities::default();
    let joined =
        join_mesh(&mut pipeline, &mut entities, &global, vec![(c(0, 0, 0), TaskPoll::Ready(task))]);
    assert_eq!(joined.actions.len(), 0);
    assert_eq!(entities.0.len(), 0);
    assert_eq!(pipeline.mesh_tasks.len(), 0);
    assert_eq!(pipeline.load_mesh_queue.len(), 7);
}

#[test]
fn nearest_ready_chunk_is_meshed_first() {
    let engine = engine_with_box(-3, 3, 2);
    let mut pipeline = MeshingPipeline::default();
    let all = [c(2, 0, 0), c(0, 0, 0), c(3, 0, 0), c(-1, 0, 0), c(0, 2, 0)];
    let global = desired(&all);
    let observers = vec![ChunkPos(c(0, 0, 0))];
    let jobs = start_mesh_tasks(&mut pipeline, &engine, &observers, &gained(&all), &vec![], &global);
    let chunks: Vec<IVec3> = jobs.iter().map(|job| job.chunk).collect();
    assert_eq!(chunks, vec![c(0, 0, 0), c(-1, 0, 0), c(0, 2, 0), c(2, 0, 0)]);
    assert_eq!(pipeline.load_mesh_queue.to_vec(), vec![c(3, 0, 0)]);
    assert_eq!(pipeline.mesh_tasks, chunks);
}

#[test]
fn at_most_the_cap_of_mesh_tasks_runs() {
    let engine = engine_with_box(-4, 4, 2);
    let mut pipeline = MeshingPipeline::default();
    let mut all = Vec::new();
    for x in -3..=3 {
        for z in -3..=3 {
            all.push(c(x, 0, z));
        }
    }
    let global = desired(&all);
    let observers = vec![ChunkPos(c(0, 0, 0))];
    let jobs = start_mesh_tasks(&mut pipeline, &engine, &observers, &gained(&all), &vec![], &global);
    assert_eq!(MAX_MESH_TASKS, 32);
    assert_eq!(jobs.len(), 32);
    assert_eq!(jobs[0].chunk, c(0, 0, 0));
    assert_eq!(pipeline.mesh_tasks.len(), 32);
    assert_eq!(pipeline.load_mesh_queue.len(), 49 - 32);
    let furthest_started = jobs.iter().map(|j| j.chunk.x * j.chunk.x + j.chunk.z * j.chunk.z).max();
    let nearest_left = pipeline
        .load_mesh_queue
        .to_vec()
        .iter()
        .map(|p| p.x * p.x + p.z * p.z)
        .min();
    assert!(furthest_started <= nearest_left);
    let none = start_mesh_tasks(&mut pipeline, &engine, &observers, &vec![], &vec![], &global);
    assert_eq!(none.len(), 0);
}

#[test]
fn modified_chunks_are_remeshed_if_wanted() {
    let engine = engine_with_box(-2, 2, 2);
    let mut pipeline = MeshingPipeline::default();
    let global = desired(&[c(0, 0, 0), c(1, 0, 0)]);
    let observers = vec![ChunkPos(c(0, 0, 0))];
    let modified = vec![ChunkModified(c(1, 0, 0)), ChunkModified(c(0, 1, 0)), ChunkModified(c(0, 0, 0))];
    let jobs = start_mesh_tasks(&mut pipeline, &engine, &observers, &vec![], &modified, &global);
    let chunks: Vec<IVec3> = jobs.iter().map(|job| job.chunk).collect();
    assert_eq!(chunks, vec![c(0, 0, 0), c(1, 0, 0)]);
}

#[test]
fn job_holds_a_snapshot() {
    let mut engine = engine_with_box(-1, 1, 2);
    let mut pipeline = MeshingPipeline::default();
    let global = desired(&[c(0, 0, 0)]);
    let observers = vec![ChunkPos(c(0, 0, 0))];
    let jobs =
        start_mesh_tasks(&mut pipeline, &engine, &observers, &gained(&[c(0, 0, 0)]), &vec![], &global);
    engine.world_data.insert(
        c(0, 0, 0),
        Arc::new(ChunkData::filled(BlockData { block_type: BlockId(0) })),
    );
    engine.world_data.remove(c(1, 1, 1));
    let refs = &jobs[0].chunks_refs;
    assert_eq!(refs.get_block(c(5, 5, 5)).block_type, BlockId(2));
    assert_eq!(refs.get_block(c(40, 40, 40)).block_type, BlockId(2));
    assert_eq!(refs.get_block_no_neighbour(c(0, 0, 0)).block_type, BlockId(2));
}

#[test]
fn joined_mesh_replaces_the_entity() {
    let mut pipeline = MeshingPipeline::default();
    pipeline.mesh_tasks = vec![c(0, 0, 0), c(1, 0, 0), c(2, 0, 0), c(3, 0, 0)];
    let mut entities = ChunkMeshEntities::default();
    entities.0.insert(c(0, 0, 0));
    entities.0.insert(c(1, 0, 0));
    let global = desired(&[c(0, 0, 0), c(1, 0, 0), c(2, 0, 0)]);
    let polled = vec![
        (
            c(0, 0, 0),
            TaskPoll::Ready(MeshTask { opaque: Some(quad_mesh(4)), transparent: Some(quad_mesh(9)) }),
        ),
        (c(1, 0, 0), TaskPoll::Ready(MeshTask { opaque: None, transparent: None })),
        (c(2, 0, 0), TaskPoll::Pending),
        (c(3, 0, 0), TaskPoll::Ready(MeshTask { opaque: Some(quad_mesh(0)), transparent: None })),
    ];
    let joined = join_mesh(&mut pipeline, &mut entities, &global, polled);
    assert_eq!(
        describe(&joined.actions),
        vec![
            "despawn (0, 0, 0)".to_string(),
            "spawn (0, 0, 0) [Opaque, Transparent]".to_string(),
            "despawn (1, 0, 0)".to_string(),
        ]
    );
    assert_eq!(joined.missing, 0);
    assert_eq!(pipeline.mesh_tasks, vec![c(2, 0, 0)]);
    assert_eq!(entities.0.to_vec(), vec![c(0, 0, 0)]);
    match &joined.actions[1] {
        MeshAction::Spawn(spawn) => {
            assert_eq!(spawn.parts[0].kind, ChunkEntityType::Opaque);
            assert_eq!(spawn.parts[0].aabb_min, c(4, 1, 2));
            assert_eq!(spawn.parts[0].aabb_max, c(7, 1, 5));
            assert_eq!(spawn.parts[0].mesh.vertices.len(), 4);
            assert_eq!(spawn.parts[1].aabb_min, c(9, 1, 2));
            assert_eq!(spawn.parts[1].aabb_max, c(12, 1, 5));
        },
        MeshAction::Despawn(_) => panic!("expected a spawn"),
    }
}

#[test]
fn twice_joined_chunk_keeps_the_later_mesh() {
    let mut pipeline = MeshingPipeline::default();
    let mut entities = ChunkMeshEntities::default();
    let global = desired(&[c(0, 0, 0)]);
    let polled = vec![
        (c(0, 0, 0), TaskPoll::Ready(MeshTask { opaque: Some(quad_mesh(1)), transparent: None })),
        (c(0, 0, 0), TaskPoll::Missing),
        (c(0, 0, 0), TaskPoll::Ready(MeshTask { opaque: None, transparent: Some(quad_mesh(2)) })),
    ];
    let joined = join_mesh(&mut pipeline, &mut entities, &global, polled);
    assert_eq!(
        describe(&joined.actions),
        vec![
            "spawn (0, 0, 0) [Opaque]".to_string(),
            "despawn (0, 0, 0)".to_string(),
            "spawn (0, 0, 0) [Transparent]".to_string(),
        ]
    );
    assert_eq!(joined.missing, 1);
    assert_eq!(entities.0.len(), 1);
}

#[test]
fn unloading_destroys_entities_and_clears_the_queue() {
    let mut pipeline = MeshingPipeline::default();
    pipeline.load_mesh_queue.extend(&vec![c(0, 0, 0), c(1, 0, 0), c(2, 0, 0)]);
    pipeline.unload_mesh_queue.push(c(2, 0, 0));
    let mut entities = ChunkMeshEntities::default();
    entities.0.insert(c(5, 0, 0));
    entities.0.insert(c(6, 0, 0));
    let despawned = unload_mesh(
        &mut pipeline,
        &mut entities,
        &lost(&[c(5, 0, 0), c(0, 0, 0), c(5, 0, 0), c(7, 0, 0)]),
    );
    assert_eq!(despawned, vec![c(5, 0, 0)]);
    assert_eq!(entities.0.to_vec(), vec![c(6, 0, 0)]);
    assert_eq!(pipeline.load_mesh_queue.to_vec(), vec![c(1, 0, 0)]);
    assert_eq!(pipeline.unload_mesh_queue.len(), 0);
}

#[test]
fn bounds_and_positions_of_a_mesh() {
    let mesh = quad_mesh(4);
    assert_eq!(mesh.calculate_aabb(), (c(4, 1, 2), c(7, 1, 5)));
    let (indices, positions) = mesh.into_uncompressed_mesh();
    assert_eq!(indices, vec![0, 1, 2, 0, 2, 3]);
    assert_eq!(positions, vec![c(4, 1, 2), c(4, 1, 5), c(7, 1, 5), c(7, 1, 2)]);
    let empty = ChunkMesh::default();
    assert_eq!(empty.calculate_aabb(), (IVec3::splat(i32::MAX), IVec3::splat(i32::MIN)));
}

#[test]
fn mesh_job_builds_both_meshes() {
    let mut engine = engine_with_box(-1, 1, 0);
    let mut voxels = vec![BlockData::default(); 32768];
    voxels[0] = BlockData { block_type: BlockId(1) };
    voxels[5] = BlockData { block_type: BlockId(2) };
    engine.world_data.insert(c(0, 0, 0), Arc::new(ChunkData::from_voxels(voxels).unwrap()));
    let mut registry = BlockRegistry::new();
    let mut add = |name: &str, visibility: BlockVisibilty| {
        registry.add_block(
            BlockStringIdentifier(name.to_string()),
            &Block { visibility, collision: true },
        );
    };
    add("air", BlockVisibilty::Invisible);
    add("dirt", BlockVisibilty::Solid);
    add("glass", BlockVisibilty::Transparent);
    let mut pipeline = MeshingPipeline::default();
    let global = desired(&[c(0, 0, 0)]);
    let observers = vec![ChunkPos(c(0, 0, 0))];
    let jobs =
        start_mesh_tasks(&mut pipeline, &engine, &observers, &gained(&[c(0, 0, 0)]), &vec![], &global);
    let task = jobs[0].run(engine.lod, &registry);
    let opaque = task.opaque.unwrap();
    let transparent = task.transparent.unwrap();
    assert_eq!(opaque.vertices.len(), 24);
    assert_eq!(transparent.vertices.len(), 24);
    assert!(opaque.vertices.iter().all(|v| v >> 24 == 1));
    assert!(transparent.vertices.iter().all(|v| v >> 24 == 2));
    assert_eq!(opaque.calculate_aabb(), (c(0, 0, 0), c(1, 1, 1)));
    assert_eq!(transparent.calculate_aabb(), (c(5, 0, 0), c(6, 1, 1)));
}
