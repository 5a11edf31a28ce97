use crate::chunk::{spec_set_block, ChunkData};
use crate::chunk_map::ChunkMap;
use crate::chunk_queue::{
    is_sorted_by_distance, spec_extend, spec_sort_by_distance, spec_swap_remove_all, ChunkQueue,
};
use crate::chunk_set::ChunkSet;
use crate::events::{ChunkGenerated, ChunkModified, ChunkUnloaded};
use crate::lod::Lod;
use crate::math::IVec3;
use crate::scanner::{
    chunks_gained, chunks_lost, gained_chunks, lost_chunks, ChunkGainedScannerRelevance,
    ChunkLostScannerRelevance, ChunkPos, DataScanner, GlobalScannerDesiredChunks,
};
use crate::utils::{
    get_edging_chunk, in_cube, spec_get_edging_chunk, spec_vec3_to_index, vec3_to_index,
};
use crate::voxel::{BlockData, BlockId};
use std::sync::Arc;
use vstd::prelude::*;

verus! {

/// The largest number of chunks whose voxel data is generated at one time.
pub const MAX_DATA_TASKS: usize = 64;

/// How meshes are made of voxels.
#[derive(Debug, Copy, Clone, PartialEq, Eq, Structural, Hash)]
pub enum MeshingMethod {
    BinaryGreedyMeshing,
}

/// An edit of one voxel: its position within its chunk, and the block to
/// place there.
#[derive(Debug, Copy, Clone)]
pub struct ChunkModification(pub IVec3, pub BlockId);

/// What the host found when it asked after a task.
pub enum TaskPoll<R> {
    /// The handle of the task was gone: someone else took it.
    Missing,
    /// The task is still running.
    Pending,
    /// The task has ended with this result.
    Ready(R),
}

/// The voxel data of the world and the work that is under way to load it.
pub struct VoxelEngine {
    /// The voxel data of each loaded chunk.
    pub world_data: ChunkMap<Arc<ChunkData>>,
    /// The chunks whose data is still to be generated, in the order in
    /// which generation is to start.
    pub load_data_queue: ChunkQueue,
    /// The chunks whose data is to be let go at the next unload.
    pub unload_data_queue: Vec<IVec3>,
    /// The chunks whose data is being generated; the host holds the tasks.
    pub data_tasks: ChunkSet,
    /// The level of detail at which meshes are built.
    pub lod: Lod,
    /// How meshes are built.
    pub meshing_method: MeshingMethod,
    /// The edits that wait to be applied, by chunk.
    pub chunk_modifications: ChunkMap<Vec<ChunkModification>>,
}

impl Default for VoxelEngine {
    fn default() -> (engine: VoxelEngine)
        ensures
            engine.world_data@ == Map::<IVec3, Arc<ChunkData>>::empty(),
            engine.load_data_queue@ == Seq::<IVec3>::empty(),
            engine.unload_data_queue@ == Seq::<IVec3>::empty(),
            engine.data_tasks@ == Set::<IVec3>::empty(),
            engine.lod == Lod::L32,
            engine.meshing_method == MeshingMethod::BinaryGreedyMeshing,
            engine.chunk_modifications@ == Map::<IVec3, Vec<ChunkModification>>::empty(),
    {
        VoxelEngine {
            world_data: ChunkMap::new(),
            load_data_queue: ChunkQueue::new(),
            unload_data_queue: Vec::new(),
            data_tasks: ChunkSet::new(),
            lod: Lod::L32,
            meshing_method: MeshingMethod::BinaryGreedyMeshing,
            chunk_modifications: ChunkMap::new(),
        }
    }
}

/// A queue after the chunks `gained` have come in: extended by them and
/// sorted by distance to the observers, or, where none came in, as it was.
pub open spec fn spec_queue_after_gain(
    queue: Seq<IVec3>,
    gained: Seq<IVec3>,
    observers: Seq<ChunkPos>,
    farthest_first: bool,
) -> Seq<IVec3> {
    if gained.len() > 0 {
        spec_sort_by_distance(spec_extend(queue, gained), observers, farthest_first)
    } else {
        queue
    }
}

/// How many tasks may start: as many as are queued, as far as the number
/// of running tasks stays within `cap`.
pub open spec fn spec_tasks_left(running: nat, queued: nat, cap: nat) -> nat {
    let free = if running < cap {
        (cap - running) as nat
    } else {
        0nat
    };
    if free < queued {
        free
    } else {
        queued
    }
}

/// Takes in the chunks whose data became wanted and picks the chunks whose
/// generation starts now: the host starts one task for each chunk returned.
///
/// Where chunks came in, the queue is extended by them and sorted, nearest
/// to any observer first. Then chunks leave the front of the queue for as
/// long as fewer than [`MAX_DATA_TASKS`] tasks run.
pub fn start_data_tasks(
    voxel_engine: &mut VoxelEngine,
    scanners: &Vec<ChunkPos>,
    chunk_gained_data_relevance: &Vec<ChunkGainedScannerRelevance<DataScanner>>,
) -> (started: Vec<IVec3>)
    ensures
        ({
            let queued = spec_queue_after_gain(
                old(voxel_engine).load_data_queue@,
                gained_chunks(chunk_gained_data_relevance@),
                scanners@,
                false,
            );
            let count = spec_tasks_left(
                old(voxel_engine).data_tasks@.len(),
                queued.len(),
                MAX_DATA_TASKS as nat,
            );
            &&& started@ == queued.take(count as int)
            &&& final(voxel_engine).load_data_queue@ == queued.skip(count as int)
            &&& final(voxel_engine).data_tasks@ == old(voxel_engine).data_tasks@.union(
                started@.to_set(),
            )
            &&& chunk_gained_data_relevance@.len() > 0 ==> is_sorted_by_distance(
                spec_extend(
                    old(voxel_engine).load_data_queue@,
                    gained_chunks(chunk_gained_data_relevance@),
                ),
                queued,
                scanners@,
                false,
            )
        }),
        final(voxel_engine).world_data@ == old(voxel_engine).world_data@,
        final(voxel_engine).unload_data_queue@ == old(voxel_engine).unload_data_queue@,
        final(voxel_engine).chunk_modifications@ == old(voxel_engine).chunk_modifications@,
        final(voxel_engine).lod == old(voxel_engine).lod,
        final(voxel_engine).meshing_method == old(voxel_engine).meshing_method,
{
    if chunk_gained_data_relevance.len() > 0 {
        let chunks = chunks_gained(chunk_gained_data_relevance);
        voxel_engine.load_data_queue.extend(&chunks);
        voxel_engine.load_data_queue.sort_by_distance(scanners, false);
    }
    let running: usize = voxel_engine.data_tasks.len();
    let free: usize = if running < MAX_DATA_TASKS {
        MAX_DATA_TASKS - running
    } else {
        0
    };
    let queued: usize = voxel_engine.load_data_queue.len();
    let tasks_left: usize = if free < queued {
        free
    } else {
        queued
    };
    let started = voxel_engine.load_data_queue.drain_front(tasks_left);
    voxel_engine.data_tasks.extend(&started);
    started
}

/// The events that tell that the chunks `gone` were unloaded, in order.
pub open spec fn spec_unloaded(gone: Seq<IVec3>) -> Seq<ChunkUnloaded> {
    gone.map_values(|chunk: IVec3| ChunkUnloaded(chunk))
}

/// Lets go of the data of the chunks that are no longer wanted: those that
/// waited in the unload queue and those that `chunk_lost_data_relevance`
/// names. Each leaves the world data and the load queue, and the result
/// tells of each, in order.
#[verifier::rlimit(50)]
pub fn unload_data(
    voxel_engine: &mut VoxelEngine,
    chunk_lost_data_relevance: &Vec<ChunkLostScannerRelevance<DataScanner>>,
) -> (events: Vec<ChunkUnloaded>)
    ensures
        ({
            let gone = old(voxel_engine).unload_data_queue@ + lost_chunks(
                chunk_lost_data_relevance@,
            );
            &&& events@ == spec_unloaded(gone)
            &&& final(voxel_engine).load_data_queue@ == spec_swap_remove_all(
                old(voxel_engine).load_data_queue@,
                gone,
            )
            &&& final(voxel_engine).world_data@ == old(voxel_engine).world_data@.remove_keys(
                gone.to_set(),
            )
        }),
        final(voxel_engine).unload_data_queue@ == Seq::<IVec3>::empty(),
        final(voxel_engine).data_tasks@ == old(voxel_engine).data_tasks@,
        final(voxel_engine).chunk_modifications@ == old(voxel_engine).chunk_modifications@,
        final(voxel_engine).lod == old(voxel_engine).lod,
        final(voxel_engine).meshing_method == old(voxel_engine).meshing_method,
{
    let mut lost = chunks_lost(chunk_lost_data_relevance);
    voxel_engine.unload_data_queue.append(&mut lost);
    let ghost gone = voxel_engine.unload_data_queue@;
    let mut events: Vec<ChunkUnloaded> = Vec::new();
    let mut i: usize = 0;
    while i < voxel_engine.unload_data_queue.len()
        invariant
            i <= gone.len(),
            voxel_engine.unload_data_queue@ == gone,
            events@.len() == i,
            forall|j: int| 0 <= j < i ==> events@[j] == ChunkUnloaded(gone[j]),
            voxel_engine.load_data_queue@ == spec_swap_remove_all(
                old(voxel_engine).load_data_queue@,
                gone.take(i as int),
            ),
            voxel_engine.world_data@ == old(voxel_engine).world_data@.remove_keys(
                gone.take(i as int).to_set(),
            ),
            voxel_engine.data_tasks@ == old(voxel_engine).data_tasks@,
            voxel_engine.chunk_modifications@ == old(voxel_engine).chunk_modifications@,
            voxel_engine.lod == old(voxel_engine).lod,
            voxel_engine.meshing_method == old(voxel_engine).meshing_method,
        decreases gone.len() - i,
    {
        let chunk_pos = voxel_engine.unload_data_queue[i];
        events.push(ChunkUnloaded(chunk_pos));
        voxel_engine.load_data_queue.swap_remove(chunk_pos);
        voxel_engine.world_data.remove(chunk_pos);
        proof {
            let before = gone.take(i as int);
            let after = gone.take(i as int + 1);
            assert(after.drop_last() =~= before);
            assert(after.last() == chunk_pos);
            assert(after.to_set() =~= before.to_set().insert(chunk_pos)) by {
                assert forall|q: IVec3|
                    after.to_set().contains(q) == before.to_set().insert(chunk_pos).contains(
                        q,
                    ) by {
                    if after.contains(q) {
                        let j = choose|j: int| 0 <= j < after.len() && after[j] == q;
                        if j < i {
                            assert(before[j] == q);
                        }
                    }
                    if before.contains(q) {
                        let j = choose|j: int| 0 <= j < before.len() && before[j] == q;
                        assert(after[j] == q);
                    }
                    assert(after[i as int] == chunk_pos);
                }
            }
            assert(voxel_engine.world_data@ =~= old(voxel_engine).world_data@.remove_keys(
                after.to_set(),
            ));
        }
        i += 1;
    }
    voxel_engine.unload_data_queue.clear();
    proof {
        assert(gone.take(gone.len() as int) =~= gone);
        assert(events@ =~= spec_unloaded(gone));
    }
    events
}

/// The voxels of each chunk of a world.
pub open spec fn world_voxels(world: Map<IVec3, Arc<ChunkData>>) -> Map<IVec3, Seq<BlockData>> {
    world.map_values(|chunk: Arc<ChunkData>| chunk@)
}

/// Whether what the host found of a task is data to keep: the task has
/// ended and its chunk is still wanted.
pub open spec fn join_keeps(desired: Set<IVec3>, entry: (IVec3, TaskPoll<ChunkData>)) -> bool {
    entry.1 is Ready && desired.contains(entry.0)
}

/// The voxels of the world after the tasks `polled` have been joined, in
/// order: the data of each task that ended is stored, unless its chunk is no
/// longer wanted.
pub open spec fn spec_joined_world(
    world: Map<IVec3, Seq<BlockData>>,
    desired: Set<IVec3>,
    polled: Seq<(IVec3, TaskPoll<ChunkData>)>,
) -> Map<IVec3, Seq<BlockData>>
    decreases polled.len(),
{
    if polled.len() == 0 {
        world
    } else {
        let rest = spec_joined_world(world, desired, polled.drop_last());
        match polled.last().1 {
            TaskPoll::Ready(data) => if desired.contains(polled.last().0) {
                rest.insert(polled.last().0, data@)
            } else {
                rest
            },
            _ => rest,
        }
    }
}

/// The chunks whose tasks still run after the tasks `polled` have been
/// joined: a task leaves unless the host found it running.
pub open spec fn spec_joined_tasks<R>(tasks: Set<IVec3>, polled: Seq<(IVec3, TaskPoll<R>)>) -> Set<
    IVec3,
>
    decreases polled.len(),
{
    if polled.len() == 0 {
        tasks
    } else {
        let rest = spec_joined_tasks(tasks, polled.drop_last());
        if polled.last().1 is Pending {
            rest
        } else {
            rest.remove(polled.last().0)
        }
    }
}

/// The events that joining the tasks `polled` gives: one for each task
/// whose data is kept, in order.
pub open spec fn spec_joined_events(
    desired: Set<IVec3>,
    polled: Seq<(IVec3, TaskPoll<ChunkData>)>,
) -> Seq<ChunkGenerated>
    decreases polled.len(),
{
    if polled.len() == 0 {
        Seq::empty()
    } else {
        let rest = spec_joined_events(desired, polled.drop_last());
        if join_keeps(desired, polled.last()) {
            rest.push(ChunkGenerated(polled.last().0))
        } else {
            rest
        }
    }
}

/// How many of the tasks `polled` had lost their handle.
pub open spec fn spec_missing<R>(polled: Seq<(IVec3, TaskPoll<R>)>) -> nat
    decreases polled.len(),
{
    if polled.len() == 0 {
        0
    } else {
        spec_missing(polled.drop_last()) + if polled.last().1 is Missing {
            1nat
        } else {
            0nat
        }
    }
}

/// What joining the data tasks gave.
pub struct DataJoin {
    /// One event for each chunk whose data was stored, in order.
    pub events: Vec<ChunkGenerated>,
    /// How many tasks had lost their handle; each is worth a warning.
    pub missing: usize,
}

/// Takes in what the host found when it asked after each running data
/// task, in order.
///
/// The data of a task that ended is stored as the data of its chunk, and an
/// event tells so, if the chunk is still wanted; else the data is dropped.
/// A task that ended or lost its handle no longer counts as running.
#[verifier::rlimit(50)]
pub fn join_data(
    voxel_engine: &mut VoxelEngine,
    global_desired_chunks: &GlobalScannerDesiredChunks<DataScanner>,
    polled: Vec<(IVec3, TaskPoll<ChunkData>)>,
) -> (joined: DataJoin)
    ensures
        world_voxels(final(voxel_engine).world_data@) == spec_joined_world(
            world_voxels(old(voxel_engine).world_data@),
            global_desired_chunks.chunks@,
            polled@,
        ),
        final(voxel_engine).data_tasks@ == spec_joined_tasks(
            old(voxel_engine).data_tasks@,
            polled@,
        ),
        joined.events@ == spec_joined_events(global_desired_chunks.chunks@, polled@),
        joined.missing == spec_missing(polled@),
        final(voxel_engine).load_data_queue@ == old(voxel_engine).load_data_queue@,
        final(voxel_engine).unload_data_queue@ == old(voxel_engine).unload_data_queue@,
        final(voxel_engine).chunk_modifications@ == old(voxel_engine).chunk_modifications@,
        final(voxel_engine).lod == old(voxel_engine).lod,
        final(voxel_engine).meshing_method == old(voxel_engine).meshing_method,
{
    let mut events: Vec<ChunkGenerated> = Vec::new();
    let mut missing: usize = 0;
    let ghost all = polled@;
    let ghost desired = global_desired_chunks.chunks@;
    let count: usize = polled.len();
    assert(all.take(0) =~= Seq::<(IVec3, TaskPoll<ChunkData>)>::empty());
    for entry in it: polled.into_iter()
        invariant
            it.seq() == all,
            all.len() == count,
            desired == global_desired_chunks.chunks@,
            world_voxels(voxel_engine.world_data@) == spec_joined_world(
                world_voxels(old(voxel_engine).world_data@),
                desired,
                all.take(it.index()),
            ),
            voxel_engine.data_tasks@ == spec_joined_tasks(
                old(voxel_engine).data_tasks@,
                all.take(it.index()),
            ),
            events@ == spec_joined_events(desired, all.take(it.index())),
            missing == spec_missing(all.take(it.index())),
            missing <= it.index(),
            voxel_engine.load_data_queue@ == old(voxel_engine).load_data_queue@,
            voxel_engine.unload_data_queue@ == old(voxel_engine).unload_data_queue@,
            voxel_engine.chunk_modifications@ == old(voxel_engine).chunk_modifications@,
            voxel_engine.lod == old(voxel_engine).lod,
            voxel_engine.meshing_method == old(voxel_engine).meshing_method,
    {
        let ghost before = all.take(it.index());
        let ghost after = all.take(it.index() + 1);
        assert(after.drop_last() =~= before);
        assert(after.last() == entry);
        let ghost world_before = voxel_engine.world_data@;
        let (world_pos, poll) = entry;
        match poll {
            TaskPoll::Missing => {
                voxel_engine.data_tasks.remove(world_pos);
                missing += 1;
            },
            TaskPoll::Pending => {},
            TaskPoll::Ready(chunk_data) => {
                voxel_engine.data_tasks.remove(world_pos);
                if global_desired_chunks.chunks.contains(world_pos) {
                    voxel_engine.world_data.insert(world_pos, Arc::new(chunk_data));
                    events.push(ChunkGenerated(world_pos));
                    assert(world_voxels(voxel_engine.world_data@) =~= world_voxels(
                        world_before,
                    ).insert(world_pos, chunk_data@));
                }
            },
        }
    }
    assert(all.take(all.len() as int) =~= all);
    DataJoin { events, missing }
}

/// The voxels of a chunk after `edits` have been applied in order; the
/// first edit of a uniform chunk writes its voxels out.
pub open spec fn spec_apply_edits(voxels: Seq<BlockData>, edits: Seq<ChunkModification>) -> Seq<
    BlockData,
>
    decreases edits.len(),
{
    if edits.len() == 0 {
        voxels
    } else {
        spec_set_block(
            spec_apply_edits(voxels, edits.drop_last()),
            spec_vec3_to_index(edits.last().0, 32),
            BlockData { block_type: edits.last().1 },
        )
    }
}

/// Whether each of `edits` names a voxel of a chunk.
pub open spec fn edits_in_bounds(edits: Seq<ChunkModification>) -> bool {
    forall|i: int| 0 <= i < edits.len() ==> in_cube((#[trigger] edits[i]).0, 32)
}

/// Whether `edit`, made in chunk `pos`, is of a voxel on the boundary
/// towards chunk `c`.
pub open spec fn edit_reaches(pos: IVec3, edit: ChunkModification, c: IVec3) -> bool {
    match spec_get_edging_chunk(edit.0) {
        Some(dir) => pos.can_add(dir) && pos.spec_add(dir) == c,
        None => false,
    }
}

/// Whether `edits`, made in chunk `pos`, change what a mesh of chunk `c`
/// shows: `c` is `pos` itself or the chunk that one of the edits borders.
pub open spec fn edits_touch(pos: IVec3, edits: Seq<ChunkModification>, c: IVec3) -> bool {
    c == pos || exists|i: int| 0 <= i < edits.len() && edit_reaches(pos, #[trigger] edits[i], c)
}

/// The chunks that the edits `modifications` touch, counting only the edits
/// of loaded chunks among `considered`.
pub open spec fn spec_affected(
    modifications: Map<IVec3, Vec<ChunkModification>>,
    loaded: Set<IVec3>,
    considered: Set<IVec3>,
) -> Set<IVec3> {
    Set::new(
        |c: IVec3|
            exists|pos: IVec3|
                considered.contains(pos) && modifications.contains_key(pos) && loaded.contains(pos)
                    && #[trigger] edits_touch(pos, modifications[pos]@, c),
    )
}

/// The chunks that a list of modification events names, in order.
pub open spec fn modified_chunks(events: Seq<ChunkModified>) -> Seq<IVec3> {
    events.map_values(|e: ChunkModified| e.0)
}

/// Applies `edits` to the voxels of the chunk at `pos` and adds the chunks
/// that the edits touch to `affected`.
#[verifier::rlimit(50)]
fn apply_modifications(
    chunk: &mut ChunkData,
    pos: IVec3,
    edits: &Vec<ChunkModification>,
    affected: &mut ChunkSet,
)
    requires
        edits_in_bounds(edits@),
    ensures
        final(chunk)@ == spec_apply_edits(old(chunk)@, edits@),
        forall|c: IVec3|
            final(affected)@.contains(c) == (old(affected)@.contains(c) || edits_touch(
                pos,
                edits@,
                c,
            )),
{
    let mut i: usize = 0;
    while i < edits.len()
        invariant
            i <= edits@.len(),
            edits_in_bounds(edits@),
            chunk@ == spec_apply_edits(old(chunk)@, edits@.take(i as int)),
            forall|c: IVec3|
                affected@.contains(c) == (old(affected)@.contains(c) || exists|k: int|
                    0 <= k < i && edit_reaches(pos, #[trigger] edits@[k], c)),
        decreases edits@.len() - i,
    {
        let ChunkModification(local_pos, block_type) = edits[i];
        assert(in_cube(edits@[i as int].0, 32));
        let index: usize = vec3_to_index(local_pos, 32);
        chunk.set_block(index, BlockData { block_type });
        let ghost reached = affected@;
        match get_edging_chunk(local_pos) {
            Some(dir) => {
                match pos.checked_add(dir) {
                    Some(edge_chunk) => {
                        affected.insert(edge_chunk);
                    },
                    None => {},
                }
            },
            None => {},
        }
        proof {
            assert(edits@.take(i as int + 1).drop_last() =~= edits@.take(i as int));
            assert forall|c: IVec3|
                affected@.contains(c) == (old(affected)@.contains(c) || exists|k: int|
                    0 <= k < i + 1 && edit_reaches(pos, #[trigger] edits@[k], c)) by {
                if reached.contains(c) && !old(affected)@.contains(c) {
                    let k = choose|k: int| 0 <= k < i && edit_reaches(pos, #[trigger] edits@[k], c);
                    assert(0 <= k < i + 1 && edit_reaches(pos, edits@[k], c));
                }
                if edit_reaches(pos, edits@[i as int], c) {
                    assert(affected@.contains(c));
                }
                if exists|k: int| 0 <= k < i + 1 && edit_reaches(pos, #[trigger] edits@[k], c) {
                    let k = choose|k: int|
                        0 <= k < i + 1 && edit_reaches(pos, #[trigger] edits@[k], c);
                    if k < i {
                        assert(reached.contains(c));
                    }
                }
            }
        }
        i += 1;
    }
    affected.insert(pos);
    proof {
        assert(edits@.take(edits@.len() as int) =~= edits@);
    }
}

/// Applies the edits that wait in the engine and tells which chunks they
/// touch.
///
/// The edits of a chunk that is not loaded are dropped. Those of a loaded
/// chunk are applied in order to a copy of its voxels, which then takes the
/// place of the old voxels; whoever still holds the old voxels keeps them
/// unchanged. The result names each touched chunk once: each loaded chunk
/// with edits, and for each edit of a voxel on the boundary of its chunk
/// the chunk on the other side.
#[verifier::rlimit(50)]
pub fn start_modifications(voxel_engine: &mut VoxelEngine) -> (events: Vec<ChunkModified>)
    requires
        forall|pos: IVec3| #[trigger]
            old(voxel_engine).chunk_modifications@.contains_key(pos) ==> edits_in_bounds(
                old(voxel_engine).chunk_modifications@[pos]@,
            ),
    ensures
        final(voxel_engine).chunk_modifications@ == Map::<IVec3, Vec<ChunkModification>>::empty(),
        final(voxel_engine).world_data@.dom() == old(voxel_engine).world_data@.dom(),
        forall|pos: IVec3| #[trigger]
            final(voxel_engine).world_data@.contains_key(pos) ==> final(voxel_engine).world_data@[pos]@
                == if old(voxel_engine).chunk_modifications@.contains_key(pos) {
                spec_apply_edits(
                    old(voxel_engine).world_data@[pos]@,
                    old(voxel_engine).chunk_modifications@[pos]@,
                )
            } else {
                old(voxel_engine).world_data@[pos]@
            },
        modified_chunks(events@).no_duplicates(),
        modified_chunks(events@).to_set() == spec_affected(
            old(voxel_engine).chunk_modifications@,
            old(voxel_engine).world_data@.dom(),
            Set::full(),
        ),
        final(voxel_engine).load_data_queue@ == old(voxel_engine).load_data_queue@,
        final(voxel_engine).unload_data_queue@ == old(voxel_engine).unload_data_queue@,
        final(voxel_engine).data_tasks@ == old(voxel_engine).data_tasks@,
        final(voxel_engine).lod == old(voxel_engine).lod,
        final(voxel_engine).meshing_method == old(voxel_engine).meshing_method,
{
    let positions = voxel_engine.chunk_modifications.keys();
    let mut affected = ChunkSet::new();
    let ghost mods = old(voxel_engine).chunk_modifications@;
    let ghost world = old(voxel_engine).world_data@;
    let mut i: usize = 0;
    while i < positions.len()
        invariant
            i <= positions@.len(),
            positions@.no_duplicates(),
            positions@.to_set() == mods.dom(),
            mods == old(voxel_engine).chunk_modifications@,
            world == old(voxel_engine).world_data@,
            forall|pos: IVec3| #[trigger] mods.contains_key(pos) ==> edits_in_bounds(mods[pos]@),
            voxel_engine.chunk_modifications@ == mods.remove_keys(
                positions@.take(i as int).to_set(),
            ),
            voxel_engine.world_data@.dom() == world.dom(),
            forall|pos: IVec3| #[trigger]
                world.contains_key(pos) ==> voxel_engine.world_data@[pos]@ == if positions@.take(
                    i as int,
                ).contains(pos) {
                    spec_apply_edits(world[pos]@, mods[pos]@)
                } else {
                    world[pos]@
                },
            affected@ == spec_affected(mods, world.dom(), positions@.take(i as int).to_set()),
            voxel_engine.load_data_queue@ == old(voxel_engine).load_data_queue@,
            voxel_engine.unload_data_queue@ == old(voxel_engine).unload_data_queue@,
            voxel_engine.data_tasks@ == old(voxel_engine).data_tasks@,
            voxel_engine.lod == old(voxel_engine).lod,
            voxel_engine.meshing_method == old(voxel_engine).meshing_method,
        decreases positions@.len() - i,
    {
        let pos = positions[i];
        let ghost before = positions@.take(i as int);
        let ghost after = positions@.take(i as int + 1);
        let ghost reached = affected@;
        proof {
            assert(positions@.to_set().contains(pos));
            assert(after =~= before.push(pos));
            assert(!before.contains(pos)) by {
                if before.contains(pos) {
                    let j = choose|j: int| 0 <= j < before.len() && before[j] == pos;
                    assert(positions@[j] == positions@[i as int]);
                }
            }
            assert forall|q: IVec3| after.contains(q) == (before.contains(q) || q == pos) by {
                if after.contains(q) {
                    let j = choose|j: int| 0 <= j < after.len() && after[j] == q;
                    if j < i {
                        assert(before[j] == q);
                    }
                }
                if before.contains(q) {
                    let j = choose|j: int| 0 <= j < before.len() && before[j] == q;
                    assert(after[j] == q);
                }
                assert(after[i as int] == pos);
            }
        }
        let removed = voxel_engine.chunk_modifications.remove(pos);
        let mut applied: bool = false;
        match removed {
            Some(edits) => {
                let loaded: Option<ChunkData> = match voxel_engine.world_data.get(pos) {
                    Some(shared) => Some((**shared).clone()),
                    None => None,
                };
                match loaded {
                    Some(chunk_data) => {
                        let mut new_chunk_data = chunk_data;
                        apply_modifications(&mut new_chunk_data, pos, &edits, &mut affected);
                        voxel_engine.world_data.insert(pos, Arc::new(new_chunk_data));
                        applied = true;
                    },
                    None => {},
                }
            },
            None => {},
        }
        proof {
            assert(voxel_engine.chunk_modifications@ =~= mods.remove_keys(after.to_set()));
            assert(voxel_engine.world_data@.dom() =~= world.dom());
            assert(applied == world.contains_key(pos));
            assert forall|c: IVec3|
                affected@.contains(c) == spec_affected(mods, world.dom(), after.to_set()).contains(
                    c,
                ) by {
                if spec_affected(mods, world.dom(), before.to_set()).contains(c) {
                    let p = choose|p: IVec3|
                        before.to_set().contains(p) && mods.contains_key(p) && world.dom().contains(
                            p,
                        ) && #[trigger] edits_touch(p, mods[p]@, c);
                    assert(after.to_set().contains(p));
                    assert(edits_touch(p, mods[p]@, c));
                }
                if applied && edits_touch(pos, mods[pos]@, c) {
                    assert(after.to_set().contains(pos));
                    assert(spec_affected(mods, world.dom(), after.to_set()).contains(c));
                }
                if spec_affected(mods, world.dom(), after.to_set()).contains(c) {
                    let p = choose|p: IVec3|
                        after.to_set().contains(p) && mods.contains_key(p) && world.dom().contains(
                            p,
                        ) && #[trigger] edits_touch(p, mods[p]@, c);
                    if p != pos {
                        assert(before.to_set().contains(p));
                        assert(edits_touch(p, mods[p]@, c));
                        assert(spec_affected(mods, world.dom(), before.to_set()).contains(c));
                    }
                }
            }
            assert(affected@ =~= spec_affected(mods, world.dom(), after.to_set()));
        }
        i += 1;
    }
    proof {
        assert(positions@.take(positions@.len() as int) =~= positions@);
        assert(voxel_engine.chunk_modifications@ =~= Map::<
            IVec3,
            Vec<ChunkModification>,
        >::empty());
        assert(spec_affected(mods, world.dom(), positions@.to_set()) =~= spec_affected(
            mods,
            world.dom(),
            Set::full(),
        )) by {
            assert forall|c: IVec3|
                spec_affected(mods, world.dom(), positions@.to_set()).contains(c)
                    == spec_affected(mods, world.dom(), Set::full()).contains(c) by {
                if spec_affected(mods, world.dom(), Set::full()).contains(c) {
                    let p = choose|p: IVec3|
                        Set::<IVec3>::full().contains(p) && mods.contains_key(p)
                            && world.dom().contains(p) && #[trigger] edits_touch(p, mods[p]@, c);
                    assert(positions@.to_set().contains(p));
                    assert(edits_touch(p, mods[p]@, c));
                }
                if spec_affected(mods, world.dom(), positions@.to_set()).contains(c) {
                    let p = choose|p: IVec3|
                        positions@.to_set().contains(p) && mods.contains_key(p)
                            && world.dom().contains(p) && #[trigger] edits_touch(p, mods[p]@, c);
                    assert(Set::<IVec3>::full().contains(p));
                    assert(edits_touch(p, mods[p]@, c));
                }
            }
        }
    }
    let touched = affected.to_vec();
    let mut events: Vec<ChunkModified> = Vec::new();
    let mut k: usize = 0;
    while k < touched.len()
        invariant
            k <= touched@.len(),
            events@.len() == k,
            forall|j: int| 0 <= j < k ==> events@[j] == ChunkModified(touched@[j]),
        decreases touched@.len() - k,
    {
        events.push(ChunkModified(touched[k]));
        k += 1;
    }
    assert(modified_chunks(events@) =~= touched@);
    events
}

/// A single edit of a uniform chunk writes the voxels of the chunk out and
/// leaves all but the edited one as they were; where the edit places
/// another block than the chunk was filled with, the edited voxel is the
/// one that differs.
pub proof fn lemma_single_edit(voxels: Seq<BlockData>, edit: ChunkModification)
    requires
        voxels.len() == 1,
        in_cube(edit.0, 32),
    ensures
        ({
            let edited = spec_apply_edits(voxels, seq![edit]);
            let index = spec_vec3_to_index(edit.0, 32);
            &&& edited.len() == 32768
            &&& 0 <= index < 32768
            &&& edited[index] == BlockData { block_type: edit.1 }
            &&& forall|i: int| 0 <= i < 32768 && i != index ==> edited[i] == voxels[0]
            &&& edit.1 != voxels[0].block_type ==> forall|i: int|
                0 <= i < 32768 ==> (edited[i] != voxels[0] <==> i == index)
        }),
{
    let edits = seq![edit];
    assert(edits.drop_last() =~= Seq::<ChunkModification>::empty());
    assert(edits.last() == edit);
    assert(spec_apply_edits(voxels, edits.drop_last()) == voxels);
}

/// The edits of one loaded chunk touch the chunk itself and, for each edit
/// on the boundary of the chunk, the chunk that the edit borders.
pub proof fn lemma_affected_by_chunk(
    modifications: Map<IVec3, Vec<ChunkModification>>,
    loaded: Set<IVec3>,
    pos: IVec3,
    c: IVec3,
)
    requires
        modifications.dom() == set![pos],
        loaded.contains(pos),
    ensures
        spec_affected(modifications, loaded, Set::full()).contains(c) == edits_touch(
            pos,
            modifications[pos]@,
            c,
        ),
{
    if spec_affected(modifications, loaded, Set::full()).contains(c) {
        let p = choose|p: IVec3|
            Set::<IVec3>::full().contains(p) && modifications.contains_key(p) && loaded.contains(p)
                && #[trigger] edits_touch(p, modifications[p]@, c);
        assert(modifications.dom().contains(p));
        assert(p == pos);
    }
    if edits_touch(pos, modifications[pos]@, c) {
        assert(modifications.dom().contains(pos));
        assert(Set::<IVec3>::full().contains(pos));
    }
}

} // verus!
