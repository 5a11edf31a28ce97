use crate::cell_grid::MeshSettings;
use crate::chunk_mesh::{spec_max_pos, spec_min_pos, ChunkMesh};
use crate::chunk_queue::{
    is_sorted_by_distance, lemma_swap_remove, seq_swap_remove, spec_extend,
    spec_sort_by_distance, spec_swap_remove, spec_swap_remove_all, ChunkQueue,
};
use crate::chunk_set::ChunkSet;
use crate::chunks_refs::{neighbours_available, spec_neighbour, ChunksRefs};
use crate::events::ChunkModified;
use crate::greedy_mesher_optimized::{build_chunk_mesh, is_chunk_mesh};
use crate::lod::Lod;
use crate::math::IVec3;
use crate::scanner::{
    chunks_gained, chunks_lost, gained_chunks, lost_chunks, ChunkGainedScannerRelevance,
    ChunkLostScannerRelevance, ChunkPos, GlobalScannerDesiredChunks, MeshScanner,
};
use crate::voxel::{BlockFlags, BlockRegistry};
use crate::voxel_engine::{modified_chunks, spec_missing, TaskPoll, VoxelEngine};
use vstd::prelude::*;

verus! {

/// The largest number of chunks whose meshes are built at one time.
pub const MAX_MESH_TASKS: usize = 32;

/// Which of the two meshes of a chunk an entity shows.
#[derive(Clone, Copy, Debug, PartialEq, Eq, Structural)]
pub enum ChunkEntityType {
    Opaque,
    Transparent,
}

/// The meshes that are wanted and the work that is under way to build them.
pub struct MeshingPipeline {
    /// The chunks whose meshes are still to be built; building starts from
    /// the end of the queue.
    pub load_mesh_queue: ChunkQueue,
    /// The chunks whose meshes are to be let go at the next unload.
    pub unload_mesh_queue: Vec<IVec3>,
    /// The chunks whose meshes are being built, in the order in which
    /// building started; the host holds the tasks.
    pub mesh_tasks: Vec<IVec3>,
}

impl Default for MeshingPipeline {
    fn default() -> (pipeline: MeshingPipeline)
        ensures
            pipeline.load_mesh_queue@ == Seq::<IVec3>::empty(),
            pipeline.unload_mesh_queue@ == Seq::<IVec3>::empty(),
            pipeline.mesh_tasks@ == Seq::<IVec3>::empty(),
    {
        MeshingPipeline {
            load_mesh_queue: ChunkQueue::new(),
            unload_mesh_queue: Vec::new(),
            mesh_tasks: Vec::new(),
        }
    }
}

/// The chunks that are shown by an entity; the host holds the entities.
pub struct ChunkMeshEntities(pub ChunkSet);

impl Default for ChunkMeshEntities {
    fn default() -> (entities: ChunkMeshEntities)
        ensures
            entities.0@ == Set::<IVec3>::empty(),
    {
        ChunkMeshEntities(ChunkSet::new())
    }
}

/// What a mesh task gives: the mesh of the solid blocks of a chunk and the
/// mesh of its transparent blocks, each only if it has a face.
pub struct MeshTask {
    pub opaque: Option<ChunkMesh>,
    pub transparent: Option<ChunkMesh>,
}

/// What a mesh task works on: a chunk and a snapshot of the voxels of the
/// chunk and of the chunks around it.
pub struct MeshJob {
    pub chunk: IVec3,
    pub chunks_refs: ChunksRefs,
}

/// How the mesh of the blocks with the flags `target` is built for
/// entities: at the level of detail `lod`, with darkened corners, and with
/// faces hidden by solid cells as well as by cells of the mesh itself.
pub open spec fn entity_settings(lod: Lod, target: BlockFlags) -> MeshSettings {
    MeshSettings { lod, target, compute_ao: true, cull_against_self_only: false }
}

impl MeshJob {
    /// Does the work of a mesh task: builds the mesh of the solid blocks of
    /// the chunk and the mesh of its transparent blocks.
    pub fn run(&self, lod: Lod, block_registry: &BlockRegistry) -> (task: MeshTask)
        ensures
            is_chunk_mesh(
                task.opaque,
                &self.chunks_refs,
                block_registry,
                entity_settings(lod, BlockFlags { bits: 1 }),
            ),
            is_chunk_mesh(
                task.transparent,
                &self.chunks_refs,
                block_registry,
                entity_settings(lod, BlockFlags { bits: 2 }),
            ),
    {
        MeshTask {
            opaque: build_chunk_mesh(
                &self.chunks_refs,
                lod,
                block_registry,
                BlockFlags::solid(),
                true,
                false,
            ),
            transparent: build_chunk_mesh(
                &self.chunks_refs,
                lod,
                block_registry,
                BlockFlags::transparent(),
                true,
                false,
            ),
        }
    }
}

/// The first `n` of `chunks` that are among `desired`, in order.
pub open spec fn spec_wanted(chunks: Seq<IVec3>, desired: Set<IVec3>, n: int) -> Seq<IVec3>
    decreases n,
{
    if n <= 0 {
        Seq::empty()
    } else if desired.contains(chunks[n - 1]) {
        spec_wanted(chunks, desired, n - 1).push(chunks[n - 1])
    } else {
        spec_wanted(chunks, desired, n - 1)
    }
}

/// The mesh queue after events have come in: where there is an event, the
/// queue is extended by the chunks that gained relevance and by the modified
/// chunks whose meshes are wanted, and sorted so that the chunk nearest to
/// an observer comes last.
pub open spec fn spec_mesh_queue_after_events(
    queue: Seq<IVec3>,
    gained: Seq<IVec3>,
    modified: Seq<IVec3>,
    desired: Set<IVec3>,
    observers: Seq<ChunkPos>,
) -> Seq<IVec3> {
    if gained.len() > 0 || modified.len() > 0 {
        spec_sort_by_distance(
            spec_extend(
                spec_extend(queue, gained),
                spec_wanted(modified, desired, modified.len() as int),
            ),
            observers,
            true,
        )
    } else {
        queue
    }
}

/// What dispatching gives when it has still to look at the first `i`
/// chunks of `queue`, last first, while `running` tasks run: the chunks
/// whose tasks start, in order, and the queue that is left.
///
/// A chunk is taken if the world holds its data and that of the 26 chunks
/// around it; the last chunk of the queue then moves into its place. A
/// chunk that is not ready stays. Dispatching ends when [`MAX_MESH_TASKS`]
/// tasks run.
pub open spec fn spec_dispatch(queue: Seq<IVec3>, loaded: Set<IVec3>, running: int, i: int) -> (
    Seq<IVec3>,
    Seq<IVec3>,
)
    decreases i,
{
    if i <= 0 || running >= MAX_MESH_TASKS {
        (Seq::empty(), queue)
    } else if chunk_ready(loaded, queue[i - 1]) {
        let rest = spec_dispatch(spec_swap_remove(queue, queue[i - 1]), loaded, running + 1, i - 1);
        (seq![queue[i - 1]] + rest.0, rest.1)
    } else {
        spec_dispatch(queue, loaded, running, i - 1)
    }
}

/// Whether the data of `chunk` and of each of the 26 chunks around it is
/// loaded.
pub open spec fn chunk_ready(loaded: Set<IVec3>, chunk: IVec3) -> bool {
    forall|index: int|
        0 <= index < 27 ==> match #[trigger] spec_neighbour(chunk, index) {
            Some(neighbour) => loaded.contains(neighbour),
            None => false,
        }
}

/// The ready chunks among the first `i` chunks of `queue`, last first.
pub open spec fn ready_from_end(queue: Seq<IVec3>, loaded: Set<IVec3>, i: int) -> Seq<IVec3>
    decreases i,
{
    if i <= 0 {
        Seq::empty()
    } else if chunk_ready(loaded, queue[i - 1]) {
        seq![queue[i - 1]] + ready_from_end(queue, loaded, i - 1)
    } else {
        ready_from_end(queue, loaded, i - 1)
    }
}

/// How many tasks may start while `running` tasks run.
pub open spec fn free_mesh_tasks(running: int) -> int {
    if running < MAX_MESH_TASKS {
        MAX_MESH_TASKS - running
    } else {
        0
    }
}

/// Dispatching that has still to look at the first `i` chunks of a queue
/// starts the ready chunks among them, last first, as far as tasks are
/// free, and leaves the other chunks of the queue.
proof fn lemma_dispatch_from(
    queue: Seq<IVec3>,
    current: Seq<IVec3>,
    loaded: Set<IVec3>,
    running: int,
    i: int,
)
    requires
        current.no_duplicates(),
        0 <= i <= current.len(),
        i <= queue.len(),
        forall|j: int| 0 <= j < i ==> current[j] == queue[j],
    ensures
        ({
            let dispatched = spec_dispatch(current, loaded, running, i);
            let ready = ready_from_end(queue, loaded, i);
            let free = free_mesh_tasks(running);
            &&& dispatched.0 == if free < ready.len() {
                ready.take(free)
            } else {
                ready
            }
            &&& dispatched.1.no_duplicates()
            &&& dispatched.1.to_set() == current.to_set().difference(dispatched.0.to_set())
        }),
    decreases i,
{
    let dispatched = spec_dispatch(current, loaded, running, i);
    let ready = ready_from_end(queue, loaded, i);
    let free = free_mesh_tasks(running);
    if i <= 0 || running >= MAX_MESH_TASKS {
        assert(dispatched.0 =~= Seq::<IVec3>::empty());
        if free < ready.len() {
            assert(ready.take(free) =~= Seq::<IVec3>::empty());
        } else {
            assert(ready =~= Seq::<IVec3>::empty());
        }
        assert(dispatched.0.to_set() =~= Set::<IVec3>::empty());
        assert(dispatched.1.to_set() =~= current.to_set().difference(dispatched.0.to_set()));
    } else {
        let chunk = current[i - 1];
        assert(chunk == queue[i - 1]);
        if chunk_ready(loaded, chunk) {
            let next = spec_swap_remove(current, chunk);
            lemma_swap_remove(current, chunk);
            assert(current.contains(chunk));
            let at = current.index_of(chunk);
            assert(current[at] == chunk);
            assert(at == i - 1);
            assert(next == seq_swap_remove(current, i - 1));
            assert forall|j: int| 0 <= j < i - 1 implies next[j] == queue[j] by {
                assert(next[j] == current[j]);
            }
            lemma_dispatch_from(queue, next, loaded, running + 1, i - 1);
            let rest = spec_dispatch(next, loaded, running + 1, i - 1);
            let ready_rest = ready_from_end(queue, loaded, i - 1);
            assert(dispatched.0 == seq![chunk] + rest.0);
            assert(ready == seq![chunk] + ready_rest);
            if free < ready.len() {
                assert(ready.take(free) =~= seq![chunk] + ready_rest.take(free - 1));
            }
            assert forall|q: IVec3|
                dispatched.0.to_set().contains(q) == (q == chunk || rest.0.to_set().contains(
                    q,
                )) by {
                if dispatched.0.contains(q) {
                    let j = choose|j: int| 0 <= j < dispatched.0.len() && dispatched.0[j] == q;
                    if j > 0 {
                        assert(rest.0[j - 1] == q);
                    }
                }
                if rest.0.contains(q) {
                    let j = choose|j: int| 0 <= j < rest.0.len() && rest.0[j] == q;
                    assert(dispatched.0[j + 1] == q);
                }
                assert(dispatched.0[0] == chunk);
            }
            assert(dispatched.1.to_set() =~= current.to_set().difference(dispatched.0.to_set()));
        } else {
            lemma_dispatch_from(queue, current, loaded, running, i - 1);
        }
    }
}

/// Dispatching starts the ready chunks of the queue from its end, as far
/// as tasks are free: of the ready chunks, last first, as many as may start
/// while `running` tasks run. The other chunks stay in the queue.
pub proof fn lemma_dispatch(queue: Seq<IVec3>, loaded: Set<IVec3>, running: int)
    requires
        queue.no_duplicates(),
    ensures
        ({
            let dispatched = spec_dispatch(queue, loaded, running, queue.len() as int);
            let ready = ready_from_end(queue, loaded, queue.len() as int);
            let free = free_mesh_tasks(running);
            &&& dispatched.0 == if free < ready.len() {
                ready.take(free)
            } else {
                ready
            }
            &&& dispatched.1.no_duplicates()
            &&& dispatched.1.to_set() == queue.to_set().difference(dispatched.0.to_set())
        }),
{
    lemma_dispatch_from(queue, queue, loaded, running, queue.len() as int);
}

/// The chunks of a list of mesh jobs, in order.
pub open spec fn job_chunks(jobs: Seq<MeshJob>) -> Seq<IVec3> {
    jobs.map_values(|job: MeshJob| job.chunk)
}

/// Whether `job` holds the voxels that the world has for its chunk and for
/// the chunks around it.
pub open spec fn job_snapshot(job: MeshJob, voxel_engine: &VoxelEngine) -> bool {
    forall|index: int|
        0 <= index < 27 ==> job.chunks_refs.spec_chunk(index) == voxel_engine.world_data@[(
        #[trigger] spec_neighbour(job.chunk, index)).unwrap()]@
}

/// The modified chunks whose meshes are wanted, in order.
fn wanted_chunks(
    chunk_modified: &Vec<ChunkModified>,
    global_mesh_scanner_chunks: &GlobalScannerDesiredChunks<MeshScanner>,
) -> (wanted: Vec<IVec3>)
    ensures
        wanted@ == spec_wanted(
            modified_chunks(chunk_modified@),
            global_mesh_scanner_chunks.chunks@,
            chunk_modified@.len() as int,
        ),
{
    let mut wanted: Vec<IVec3> = Vec::new();
    let mut i: usize = 0;
    while i < chunk_modified.len()
        invariant
            i <= chunk_modified@.len(),
            wanted@ == spec_wanted(
                modified_chunks(chunk_modified@),
                global_mesh_scanner_chunks.chunks@,
                i as int,
            ),
        decreases chunk_modified@.len() - i,
    {
        let chunk = chunk_modified[i].0;
        assert(modified_chunks(chunk_modified@)[i as int] == chunk);
        if global_mesh_scanner_chunks.chunks.contains(chunk) {
            wanted.push(chunk);
        }
        i += 1;
    }
    wanted
}

/// Takes in the chunks whose meshes became wanted and the chunks that were
/// modified, and picks the chunks whose meshing starts now: the host starts
/// one task for each job returned.
///
/// Where an event came in, the queue is extended by the chunks that gained
/// relevance and by the modified chunks whose meshes are wanted, and sorted
/// so that the chunk nearest to any observer comes last. Then the queue is
/// gone through from its end for as long as fewer than [`MAX_MESH_TASKS`]
/// tasks run: a chunk whose data and whose neighbours' data is loaded leaves
/// the queue and gets a job with a snapshot of that data; another chunk
/// stays for a later call.
#[verifier::rlimit(50)]
pub fn start_mesh_tasks(
    mesh_pipeline: &mut MeshingPipeline,
    voxel_engine: &VoxelEngine,
    scanners: &Vec<ChunkPos>,
    chunk_gained_mesh_relevance: &Vec<ChunkGainedScannerRelevance<MeshScanner>>,
    chunk_modified: &Vec<ChunkModified>,
    global_mesh_scanner_chunks: &GlobalScannerDesiredChunks<MeshScanner>,
) -> (jobs: Vec<MeshJob>)
    ensures
        ({
            let queued = spec_mesh_queue_after_events(
                old(mesh_pipeline).load_mesh_queue@,
                gained_chunks(chunk_gained_mesh_relevance@),
                modified_chunks(chunk_modified@),
                global_mesh_scanner_chunks.chunks@,
                scanners@,
            );
            let dispatched = spec_dispatch(
                queued,
                voxel_engine.world_data@.dom(),
                old(mesh_pipeline).mesh_tasks@.len() as int,
                queued.len() as int,
            );
            &&& job_chunks(jobs@) == dispatched.0
            &&& final(mesh_pipeline).load_mesh_queue@ == dispatched.1
            &&& final(mesh_pipeline).mesh_tasks@ == old(mesh_pipeline).mesh_tasks@ + dispatched.0
            &&& chunk_gained_mesh_relevance@.len() > 0 || chunk_modified@.len() > 0
                ==> is_sorted_by_distance(
                spec_extend(
                    spec_extend(
                        old(mesh_pipeline).load_mesh_queue@,
                        gained_chunks(chunk_gained_mesh_relevance@),
                    ),
                    spec_wanted(
                        modified_chunks(chunk_modified@),
                        global_mesh_scanner_chunks.chunks@,
                        chunk_modified@.len() as int,
                    ),
                ),
                queued,
                scanners@,
                true,
            )
        }),
        forall|k: int| 0 <= k < jobs@.len() ==> job_snapshot(#[trigger] jobs@[k], voxel_engine),
        final(mesh_pipeline).unload_mesh_queue@ == old(mesh_pipeline).unload_mesh_queue@,
{
    if chunk_gained_mesh_relevance.len() > 0 || chunk_modified.len() > 0 {
        let gained = chunks_gained(chunk_gained_mesh_relevance);
        mesh_pipeline.load_mesh_queue.extend(&gained);
        let wanted = wanted_chunks(chunk_modified, global_mesh_scanner_chunks);
        mesh_pipeline.load_mesh_queue.extend(&wanted);
        mesh_pipeline.load_mesh_queue.sort_by_distance(scanners, true);
    }
    let ghost queued = mesh_pipeline.load_mesh_queue@;
    let ghost loaded = voxel_engine.world_data@.dom();
    let ghost running = old(mesh_pipeline).mesh_tasks@.len() as int;
    let mut jobs: Vec<MeshJob> = Vec::new();
    let mut i: usize = mesh_pipeline.load_mesh_queue.len();
    while i > 0 && mesh_pipeline.mesh_tasks.len() < MAX_MESH_TASKS
        invariant
            i <= mesh_pipeline.load_mesh_queue@.len(),
            loaded == voxel_engine.world_data@.dom(),
            mesh_pipeline.load_mesh_queue@.no_duplicates(),
            mesh_pipeline.mesh_tasks@ == old(mesh_pipeline).mesh_tasks@ + job_chunks(jobs@),
            mesh_pipeline.unload_mesh_queue@ == old(mesh_pipeline).unload_mesh_queue@,
            forall|k: int| 0 <= k < jobs@.len() ==> job_snapshot(#[trigger] jobs@[k], voxel_engine),
            ({
                let rest = spec_dispatch(
                    mesh_pipeline.load_mesh_queue@,
                    loaded,
                    mesh_pipeline.mesh_tasks@.len() as int,
                    i as int,
                );
                let dispatched = spec_dispatch(queued, loaded, running, queued.len() as int);
                &&& job_chunks(jobs@) + rest.0 == dispatched.0
                &&& rest.1 == dispatched.1
            }),
        decreases i,
    {
        i -= 1;
        let ghost jobs_before = jobs@;
        match mesh_pipeline.load_mesh_queue.get(i) {
            Some(world_pos) => {
                assert(chunk_ready(loaded, world_pos) == neighbours_available(
                    voxel_engine.world_data@,
                    world_pos,
                ));
                match ChunksRefs::try_new(&voxel_engine.world_data, world_pos) {
                    Some(chunks_refs) => {
                        mesh_pipeline.load_mesh_queue.swap_remove(world_pos);
                        jobs.push(MeshJob { chunk: world_pos, chunks_refs });
                        mesh_pipeline.mesh_tasks.push(world_pos);
                        proof {
                            assert(job_chunks(jobs@) =~= job_chunks(jobs_before).push(world_pos));
                            assert(mesh_pipeline.mesh_tasks@ =~= old(mesh_pipeline).mesh_tasks@
                                + job_chunks(jobs@));
                            let rest = spec_dispatch(
                                mesh_pipeline.load_mesh_queue@,
                                loaded,
                                mesh_pipeline.mesh_tasks@.len() as int,
                                i as int,
                            );
                            assert(job_chunks(jobs@) + rest.0 =~= job_chunks(jobs_before) + (
                            seq![world_pos] + rest.0));
                            assert forall|k: int| 0 <= k < jobs@.len() implies job_snapshot(
                                #[trigger] jobs@[k],
                                voxel_engine,
                            ) by {
                                if k < jobs_before.len() {
                                    assert(jobs@[k] == jobs_before[k]);
                                }
                            }
                        }
                    },
                    None => {},
                }
            },
            None => {},
        }
    }
    proof {
        let rest = spec_dispatch(
            mesh_pipeline.load_mesh_queue@,
            loaded,
            mesh_pipeline.mesh_tasks@.len() as int,
            i as int,
        );
        assert(rest.0 =~= Seq::<IVec3>::empty());
        assert(job_chunks(jobs@) + rest.0 =~= job_chunks(jobs@));
    }
    jobs
}

/// What unloading does to the entities when the first `n` of the chunks
/// `gone` are let go in order: the chunks whose entities are destroyed, and
/// the chunks that still have an entity.
pub open spec fn spec_unload_entities(entities: Set<IVec3>, gone: Seq<IVec3>, n: int) -> (
    Seq<IVec3>,
    Set<IVec3>,
)
    decreases n,
{
    if n <= 0 {
        (Seq::empty(), entities)
    } else {
        let rest = spec_unload_entities(entities, gone, n - 1);
        if rest.1.contains(gone[n - 1]) {
            (rest.0.push(gone[n - 1]), rest.1.remove(gone[n - 1]))
        } else {
            rest
        }
    }
}

/// Unloading destroys the entity of each chunk that is let go, and of no
/// other chunk.
#[verifier::rlimit(50)]
pub proof fn lemma_unload_entities(entities: Set<IVec3>, gone: Seq<IVec3>, n: int)
    requires
        0 <= n <= gone.len(),
    ensures
        spec_unload_entities(entities, gone, n).1 == entities.difference(gone.take(n).to_set()),
        spec_unload_entities(entities, gone, n).0.to_set() == entities.intersect(
            gone.take(n).to_set(),
        ),
        spec_unload_entities(entities, gone, n).0.no_duplicates(),
    decreases n,
{
    let now = spec_unload_entities(entities, gone, n);
    if n > 0 {
        lemma_unload_entities(entities, gone, n - 1);
        let rest = spec_unload_entities(entities, gone, n - 1);
        let before = gone.take(n - 1);
        let after = gone.take(n);
        let chunk = gone[n - 1];
        assert forall|q: IVec3| after.to_set().contains(q) == (before.to_set().contains(q) || q
            == chunk) by {
            if after.contains(q) {
                let j = choose|j: int| 0 <= j < after.len() && after[j] == q;
                if j < n - 1 {
                    assert(before[j] == q);
                }
            }
            if before.contains(q) {
                let j = choose|j: int| 0 <= j < before.len() && before[j] == q;
                assert(after[j] == q);
            }
            assert(after[n - 1] == chunk);
        }
        assert(now.1 =~= entities.difference(after.to_set()));
        assert forall|q: IVec3| now.0.to_set().contains(q) == entities.intersect(
            after.to_set(),
        ).contains(q) by {
            if now.0.contains(q) {
                let j = choose|j: int| 0 <= j < now.0.len() && now.0[j] == q;
                if j < rest.0.len() {
                    assert(rest.0[j] == q);
                    assert(rest.0.to_set().contains(q));
                }
            }
            if rest.0.to_set().contains(q) {
                let j = choose|j: int| 0 <= j < rest.0.len() && rest.0[j] == q;
                assert(now.0[j] == q);
            }
            if rest.1.contains(chunk) && q == chunk {
                assert(now.0[rest.0.len() as int] == q);
            }
        }
        assert(now.0.to_set() =~= entities.intersect(after.to_set()));
        if rest.1.contains(chunk) {
            assert(!rest.0.to_set().contains(chunk));
            assert forall|a: int, b: int|
                0 <= a < now.0.len() && 0 <= b < now.0.len() && a != b implies now.0[a]
                != now.0[b] by {
                if a < rest.0.len() && b < rest.0.len() {
                    assert(rest.0[a] != rest.0[b]);
                } else if a < rest.0.len() {
                    assert(rest.0.to_set().contains(rest.0[a]));
                } else {
                    assert(rest.0.to_set().contains(rest.0[b]));
                }
            }
        }
    } else {
        assert(gone.take(0).to_set() =~= Set::<IVec3>::empty());
        assert(now.1 =~= entities.difference(gone.take(0).to_set()));
        assert(now.0.to_set() =~= entities.intersect(gone.take(0).to_set()));
    }
}

/// Lets go of the meshes of the chunks that are no longer wanted: those
/// that waited in the unload queue and those that
/// `chunk_lost_mesh_relevance` names. Each leaves the mesh queue. The
/// result names the chunks whose entities the host has to destroy: each
/// chunk let go that had one.
#[verifier::rlimit(50)]
pub fn unload_mesh(
    mesh_pipeline: &mut MeshingPipeline,
    chunk_mesh_entities: &mut ChunkMeshEntities,
    chunk_lost_mesh_relevance: &Vec<ChunkLostScannerRelevance<MeshScanner>>,
) -> (despawned: Vec<IVec3>)
    ensures
        ({
            let gone = old(mesh_pipeline).unload_mesh_queue@ + lost_chunks(
                chunk_lost_mesh_relevance@,
            );
            let unloaded = spec_unload_entities(
                old(chunk_mesh_entities).0@,
                gone,
                gone.len() as int,
            );
            &&& despawned@ == unloaded.0
            &&& final(chunk_mesh_entities).0@ == unloaded.1
            &&& final(chunk_mesh_entities).0@ == old(chunk_mesh_entities).0@.difference(
                gone.to_set(),
            )
            &&& final(mesh_pipeline).load_mesh_queue@ == spec_swap_remove_all(
                old(mesh_pipeline).load_mesh_queue@,
                gone,
            )
        }),
        final(mesh_pipeline).unload_mesh_queue@ == Seq::<IVec3>::empty(),
        final(mesh_pipeline).mesh_tasks@ == old(mesh_pipeline).mesh_tasks@,
{
    let mut lost = chunks_lost(chunk_lost_mesh_relevance);
    mesh_pipeline.unload_mesh_queue.append(&mut lost);
    let ghost gone = mesh_pipeline.unload_mesh_queue@;
    let mut despawned: Vec<IVec3> = Vec::new();
    let mut i: usize = 0;
    while i < mesh_pipeline.unload_mesh_queue.len()
        invariant
            i <= gone.len(),
            mesh_pipeline.unload_mesh_queue@ == gone,
            despawned@ == spec_unload_entities(old(chunk_mesh_entities).0@, gone, i as int).0,
            chunk_mesh_entities.0@ == spec_unload_entities(
                old(chunk_mesh_entities).0@,
                gone,
                i as int,
            ).1,
            mesh_pipeline.load_mesh_queue@ == spec_swap_remove_all(
                old(mesh_pipeline).load_mesh_queue@,
                gone.take(i as int),
            ),
            mesh_pipeline.mesh_tasks@ == old(mesh_pipeline).mesh_tasks@,
        decreases gone.len() - i,
    {
        let chunk_pos = mesh_pipeline.unload_mesh_queue[i];
        if chunk_mesh_entities.0.remove(chunk_pos) {
            despawned.push(chunk_pos);
        }
        mesh_pipeline.load_mesh_queue.swap_remove(chunk_pos);
        proof {
            assert(gone.take(i as int + 1).drop_last() =~= gone.take(i as int));
        }
        i += 1;
    }
    mesh_pipeline.unload_mesh_queue.clear();
    proof {
        assert(gone.take(gone.len() as int) =~= gone);
        lemma_unload_entities(old(chunk_mesh_entities).0@, gone, gone.len() as int);
    }
    despawned
}

/// One mesh of a chunk as the host is to show it.
pub struct MeshPart {
    /// Which of the two meshes of the chunk this is.
    pub kind: ChunkEntityType,
    pub mesh: ChunkMesh,
    /// The least coordinates among the vertices of the mesh.
    pub aabb_min: IVec3,
    /// The greatest coordinates among the vertices of the mesh.
    pub aabb_max: IVec3,
}

/// A chunk that the host is to show: an entity for the chunk, with one
/// child for each part.
pub struct ChunkSpawn {
    pub chunk: IVec3,
    /// Where in the world the entity stands: at the least corner of the
    /// chunk, 32 voxels for each chunk from the origin.
    pub origin: (i64, i64, i64),
    pub parts: Vec<MeshPart>,
}

/// The least corner of `chunk` in the world, in voxels.
pub open spec fn spec_chunk_origin(chunk: IVec3) -> (i64, i64, i64) {
    ((chunk.x * 32) as i64, (chunk.y * 32) as i64, (chunk.z * 32) as i64)
}

/// The least corner of `chunk` in the world, in voxels.
pub fn chunk_origin(chunk: IVec3) -> (origin: (i64, i64, i64))
    ensures
        origin == spec_chunk_origin(chunk),
        origin.0 == chunk.x * 32,
        origin.1 == chunk.y * 32,
        origin.2 == chunk.z * 32,
{
    (chunk.x as i64 * 32, chunk.y as i64 * 32, chunk.z as i64 * 32)
}

/// What the host is to do with the entities of chunks.
pub enum MeshAction {
    /// Destroy the entity of this chunk and its children.
    Despawn(IVec3),
    /// Create an entity for a chunk.
    Spawn(ChunkSpawn),
}

/// What a [`MeshAction`] says.
pub enum ActionView {
    Despawn(IVec3),
    /// The chunk, where its entity stands, and its parts.
    Spawn(IVec3, (i64, i64, i64), Seq<MeshPart>),
}

/// What the action says that creates the entity of `chunk` from what the
/// mesh task `task` gave.
pub open spec fn spec_spawn(chunk: IVec3, task: MeshTask) -> ActionView {
    ActionView::Spawn(chunk, spec_chunk_origin(chunk), spec_parts(task))
}

/// What `action` says.
pub open spec fn action_view(action: MeshAction) -> ActionView {
    match action {
        MeshAction::Despawn(chunk) => ActionView::Despawn(chunk),
        MeshAction::Spawn(spawn) => ActionView::Spawn(spawn.chunk, spawn.origin, spawn.parts@),
    }
}

/// The part that shows `mesh`, with the bounds of the mesh.
pub open spec fn spec_part(kind: ChunkEntityType, mesh: ChunkMesh) -> MeshPart {
    MeshPart {
        kind,
        mesh,
        aabb_min: spec_min_pos(mesh.vertices@, mesh.vertices@.len() as int),
        aabb_max: spec_max_pos(mesh.vertices@, mesh.vertices@.len() as int),
    }
}

/// The parts that show what a mesh task gave: the opaque mesh, then the
/// transparent one, each if there is one.
pub open spec fn spec_parts(task: MeshTask) -> Seq<MeshPart> {
    (match task.opaque {
        Some(mesh) => seq![spec_part(ChunkEntityType::Opaque, mesh)],
        None => Seq::empty(),
    }) + (match task.transparent {
        Some(mesh) => seq![spec_part(ChunkEntityType::Transparent, mesh)],
        None => Seq::empty(),
    })
}

/// What joining the first `n` of the tasks `polled` does to the entities:
/// the actions for the host, in order, and the chunks that have an entity
/// afterwards.
///
/// A task that ended for a chunk whose mesh is still wanted replaces the
/// entity of the chunk: the old one, if there is one, is destroyed, and a
/// new one is created if the task gave a mesh. What a task gave for a chunk
/// whose mesh is no longer wanted is dropped.
pub open spec fn spec_join_actions(
    entities: Set<IVec3>,
    desired: Set<IVec3>,
    polled: Seq<(IVec3, TaskPoll<MeshTask>)>,
    n: int,
) -> (Seq<ActionView>, Set<IVec3>)
    decreases n,
{
    if n <= 0 {
        (Seq::empty(), entities)
    } else {
        let rest = spec_join_actions(entities, desired, polled, n - 1);
        let chunk = polled[n - 1].0;
        match polled[n - 1].1 {
            TaskPoll::Ready(task) => if desired.contains(chunk) {
                let despawn = if rest.1.contains(chunk) {
                    seq![ActionView::Despawn(chunk)]
                } else {
                    Seq::empty()
                };
                if task.opaque is Some || task.transparent is Some {
                    (
                        rest.0 + despawn + seq![spec_spawn(chunk, task)],
                        rest.1.insert(chunk),
                    )
                } else {
                    (rest.0 + despawn, rest.1.remove(chunk))
                }
            } else {
                rest
            },
            _ => rest,
        }
    }
}

/// The chunks of the first `n` of the tasks `polled` that still run, in
/// order.
pub open spec fn spec_pending<R>(polled: Seq<(IVec3, TaskPoll<R>)>, n: int) -> Seq<IVec3>
    decreases n,
{
    if n <= 0 {
        Seq::empty()
    } else if polled[n - 1].1 is Pending {
        spec_pending(polled, n - 1).push(polled[n - 1].0)
    } else {
        spec_pending(polled, n - 1)
    }
}

/// What the actions of a list say, in order.
pub open spec fn action_views(actions: Seq<MeshAction>) -> Seq<ActionView> {
    actions.map_values(|action: MeshAction| action_view(action))
}

/// What joining the mesh tasks gave.
pub struct MeshJoin {
    /// What the host is to do with the entities, in order.
    pub actions: Vec<MeshAction>,
    /// How many tasks had lost their handle; each is worth a warning.
    pub missing: usize,
}

/// The parts that show what a mesh task gave.
fn parts_of(task: MeshTask) -> (parts: Vec<MeshPart>)
    ensures
        parts@ == spec_parts(task),
{
    let mut parts: Vec<MeshPart> = Vec::new();
    let MeshTask { opaque, transparent } = task;
    match opaque {
        Some(mesh) => {
            let (aabb_min, aabb_max) = mesh.calculate_aabb();
            parts.push(MeshPart { kind: ChunkEntityType::Opaque, mesh, aabb_min, aabb_max });
        },
        None => {},
    }
    match transparent {
        Some(mesh) => {
            let (aabb_min, aabb_max) = mesh.calculate_aabb();
            parts.push(MeshPart { kind: ChunkEntityType::Transparent, mesh, aabb_min, aabb_max });
        },
        None => {},
    }
    assert(parts@ =~= spec_parts(task));
    parts
}

/// Takes in what the host found when it asked after each running mesh
/// task, in the order in which the tasks were started.
///
/// The tasks that still run stay; the others leave. What a task gave for a
/// chunk whose mesh is still wanted replaces the entity of the chunk; what
/// it gave for another chunk is dropped. The host carries out the actions
/// returned, in order.
#[verifier::rlimit(50)]
pub fn join_mesh(
    mesh_pipeline: &mut MeshingPipeline,
    chunk_mesh_entities: &mut ChunkMeshEntities,
    global_mesh_scanner_chunks: &GlobalScannerDesiredChunks<MeshScanner>,
    polled: Vec<(IVec3, TaskPoll<MeshTask>)>,
) -> (joined: MeshJoin)
    ensures
        ({
            let done = spec_join_actions(
                old(chunk_mesh_entities).0@,
                global_mesh_scanner_chunks.chunks@,
                polled@,
                polled@.len() as int,
            );
            &&& action_views(joined.actions@) == done.0
            &&& final(chunk_mesh_entities).0@ == done.1
        }),
        final(mesh_pipeline).mesh_tasks@ == spec_pending(polled@, polled@.len() as int),
        joined.missing == spec_missing(polled@),
        final(mesh_pipeline).load_mesh_queue@ == old(mesh_pipeline).load_mesh_queue@,
        final(mesh_pipeline).unload_mesh_queue@ == old(mesh_pipeline).unload_mesh_queue@,
{
    let mut actions: Vec<MeshAction> = Vec::new();
    let mut pending: Vec<IVec3> = Vec::new();
    let mut missing: usize = 0;
    let ghost all = polled@;
    let ghost desired = global_mesh_scanner_chunks.chunks@;
    let count: usize = polled.len();
    assert(all.take(0) =~= Seq::<(IVec3, TaskPoll<MeshTask>)>::empty());
    for entry in it: polled.into_iter()
        invariant
            it.seq() == all,
            all.len() == count,
            desired == global_mesh_scanner_chunks.chunks@,
            action_views(actions@) == spec_join_actions(
                old(chunk_mesh_entities).0@,
                desired,
                all,
                it.index(),
            ).0,
            chunk_mesh_entities.0@ == spec_join_actions(
                old(chunk_mesh_entities).0@,
                desired,
                all,
                it.index(),
            ).1,
            pending@ == spec_pending(all, it.index()),
            missing == spec_missing(all.take(it.index())),
            missing <= it.index(),
        {
        let ghost views_before = action_views(actions@);
        let ghost actions_before = actions@;
        proof {
            assert(all.take(it.index() + 1).drop_last() =~= all.take(it.index()));
            assert(all.take(it.index() + 1).last() == entry);
        }
        let (world_pos, poll) = entry;
        match poll {
            TaskPoll::Missing => {
                missing += 1;
            },
            TaskPoll::Pending => {
                pending.push(world_pos);
            },
            TaskPoll::Ready(chunk_mesh_task) => {
                if global_mesh_scanner_chunks.chunks.contains(world_pos) {
                    let ghost mut despawn: Seq<ActionView> = Seq::empty();
                    if chunk_mesh_entities.0.remove(world_pos) {
                        actions.push(MeshAction::Despawn(world_pos));
                        proof {
                            despawn = seq![ActionView::Despawn(world_pos)];
                        }
                    }
                    assert(action_views(actions@) =~= views_before + despawn);
                    let ghost views_middle = action_views(actions@);
                    if chunk_mesh_task.opaque.is_some() || chunk_mesh_task.transparent.is_some() {
                        let parts = parts_of(chunk_mesh_task);
                        let origin = chunk_origin(world_pos);
                        actions.push(
                            MeshAction::Spawn(ChunkSpawn { chunk: world_pos, origin, parts }),
                        );
                        chunk_mesh_entities.0.insert(world_pos);
                        assert(action_views(actions@) =~= views_middle + seq![
                            spec_spawn(world_pos, chunk_mesh_task),
                        ]);
                    }
                }
            },
        }
    }
    assert(all.take(all.len() as int) =~= all);
    mesh_pipeline.mesh_tasks = pending;
    MeshJoin { actions, missing }
}

} // verus!
