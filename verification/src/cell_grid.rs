use crate::chunks_refs::ChunksRefs;
use crate::lod::Lod;
use crate::math::IVec3;
use crate::voxel::{BlockData, BlockFlags, BlockRegistry};
use vstd::prelude::*;

verus! {

/// What is meshed, and how.
#[derive(Clone, Copy, Debug)]
pub struct MeshSettings {
    /// Into how many cells the chunk is divided along each axis.
    pub lod: Lod,
    /// The flags that a block must have to be part of the mesh.
    pub target: BlockFlags,
    /// Whether the corners of faces are darkened by the solid cells beside
    /// them.
    pub compute_ao: bool,
    /// Whether a face is hidden only by a cell that is part of the mesh
    /// itself, and not also by any solid cell.
    pub cull_against_self_only: bool,
}

/// What the mesher knows of one cell.
#[derive(Clone, Copy, Debug, PartialEq, Eq, Structural)]
pub struct Cell {
    /// Whether a voxel of the cell has the target flags.
    pub target: bool,
    /// Whether a voxel of the cell is solid.
    pub solid: bool,
    /// The block that stands for the cell: the most frequent among its
    /// voxels with the target flags, the smallest of them where several
    /// are as frequent; 0 where no voxel has the target flags.
    pub id: u16,
}

/// Whether `block` has the flags `target`. A block that the registry does
/// not know counts as air.
pub open spec fn passes(registry: &BlockRegistry, target: BlockFlags, block: BlockData) -> bool {
    registry.spec_flags_or_air(block.block_type).spec_contains(target)
}

/// Whether `block` is solid.
pub open spec fn is_solid(registry: &BlockRegistry, block: BlockData) -> bool {
    registry.spec_flags_or_air(block.block_type).spec_contains(BlockFlags { bits: 1 })
}

/// The position, relative to the middle chunk, of the `i`-th voxel of the
/// cell `cell`: x varies fastest, then y, then z.
pub open spec fn cell_voxel_pos(lod: Lod, cell: (int, int, int), i: int) -> IVec3 {
    let jump = lod.spec_jump_index();
    IVec3 {
        x: (cell.0 * jump + i % jump) as i32,
        y: (cell.1 * jump + (i / jump) % jump) as i32,
        z: (cell.2 * jump + i / (jump * jump)) as i32,
    }
}

/// The number of voxels in a cell.
pub open spec fn cell_volume(lod: Lod) -> int {
    lod.spec_jump_index() * lod.spec_jump_index() * lod.spec_jump_index()
}

/// Whether `cell` is a cell of the chunk or one of those that border it.
pub open spec fn in_grid(lod: Lod, cell: (int, int, int)) -> bool {
    -1 <= cell.0 <= lod.spec_size() && -1 <= cell.1 <= lod.spec_size() && -1 <= cell.2
        <= lod.spec_size()
}

/// The `i`-th voxel of the cell `cell`.
pub open spec fn cell_voxel(
    refs: &ChunksRefs,
    lod: Lod,
    cell: (int, int, int),
    i: int,
) -> BlockData {
    refs.spec_get_block(cell_voxel_pos(lod, cell, i))
}

/// Whether one of the first `n` voxels of the cell has the target flags.
pub open spec fn any_target(
    refs: &ChunksRefs,
    registry: &BlockRegistry,
    target: BlockFlags,
    lod: Lod,
    cell: (int, int, int),
    n: int,
) -> bool
    decreases n,
{
    n > 0 && (any_target(refs, registry, target, lod, cell, n - 1) || passes(
        registry,
        target,
        cell_voxel(refs, lod, cell, n - 1),
    ))
}

/// Whether one of the first `n` voxels of the cell is solid.
pub open spec fn any_solid(
    refs: &ChunksRefs,
    registry: &BlockRegistry,
    lod: Lod,
    cell: (int, int, int),
    n: int,
) -> bool
    decreases n,
{
    n > 0 && (any_solid(refs, registry, lod, cell, n - 1) || is_solid(
        registry,
        cell_voxel(refs, lod, cell, n - 1),
    ))
}

/// How many of the first `n` voxels of the cell have the target flags and
/// hold the block `id`.
pub open spec fn occurrences(
    refs: &ChunksRefs,
    registry: &BlockRegistry,
    target: BlockFlags,
    lod: Lod,
    cell: (int, int, int),
    id: u16,
    n: int,
) -> nat
    decreases n,
{
    if n <= 0 {
        0
    } else {
        let voxel = cell_voxel(refs, lod, cell, n - 1);
        occurrences(refs, registry, target, lod, cell, id, n - 1) + if passes(
            registry,
            target,
            voxel,
        ) && voxel.block_type.0 == id {
            1nat
        } else {
            0nat
        }
    }
}

/// Whether the block `id` stands for the cell: it occurs among the voxels
/// with the target flags, no block occurs more often, and no smaller block
/// as often.
pub open spec fn is_representative(
    refs: &ChunksRefs,
    registry: &BlockRegistry,
    target: BlockFlags,
    lod: Lod,
    cell: (int, int, int),
    id: u16,
) -> bool {
    let n = cell_volume(lod);
    &&& occurrences(refs, registry, target, lod, cell, id, n) > 0
    &&& forall|other: u16|
        {
            let theirs = #[trigger] occurrences(refs, registry, target, lod, cell, other, n);
            let ours = occurrences(refs, registry, target, lod, cell, id, n);
            theirs < ours || (theirs == ours && id <= other)
        }
}

/// What the mesher knows of the cell `cell`.
pub open spec fn spec_sample(
    refs: &ChunksRefs,
    registry: &BlockRegistry,
    target: BlockFlags,
    lod: Lod,
    cell: (int, int, int),
) -> Cell {
    let n = cell_volume(lod);
    let found = any_target(refs, registry, target, lod, cell, n);
    Cell {
        target: found,
        solid: any_solid(refs, registry, lod, cell, n),
        id: if found {
            choose|id: u16| is_representative(refs, registry, target, lod, cell, id)
        } else {
            0u16
        },
    }
}

/// At most one block stands for a cell.
pub proof fn lemma_representative_unique(
    refs: &ChunksRefs,
    registry: &BlockRegistry,
    target: BlockFlags,
    lod: Lod,
    cell: (int, int, int),
    first: u16,
    second: u16,
)
    requires
        is_representative(refs, registry, target, lod, cell, first),
        is_representative(refs, registry, target, lod, cell, second),
    ensures
        first == second,
{
    let n = cell_volume(lod);
    let a = occurrences(refs, registry, target, lod, cell, first, n);
    let b = occurrences(refs, registry, target, lod, cell, second, n);
    assert(b < a || (b == a && first <= second));
    assert(a < b || (a == b && second <= first));
}

/// Whether no block of the registry is both solid and transparent.
pub open spec fn flags_exclusive(registry: &BlockRegistry) -> bool {
    forall|i: int|
        0 <= i < registry.block_flags@.len() ==> !((#[trigger] registry.block_flags@[i]).spec_contains(
            BlockFlags { bits: 1 },
        ) && registry.block_flags@[i].spec_contains(BlockFlags { bits: 2 }))
}

/// The mesh of the solid blocks and the mesh of the transparent blocks
/// have no voxel in common: where no block of the registry is both, no voxel
/// is part of both meshes, and at the finest level of detail no cell.
pub proof fn lemma_meshes_disjoint(
    refs: &ChunksRefs,
    registry: &BlockRegistry,
    block: BlockData,
    cell: (int, int, int),
)
    requires
        flags_exclusive(registry),
    ensures
        !(passes(registry, BlockFlags { bits: 1 }, block) && passes(
            registry,
            BlockFlags { bits: 2 },
            block,
        )),
        !(spec_sample(refs, registry, BlockFlags { bits: 1 }, Lod::L32, cell).target
            && spec_sample(refs, registry, BlockFlags { bits: 2 }, Lod::L32, cell).target),
{
    let neither = BlockFlags { bits: 0 };
    assert(!(neither.spec_contains(BlockFlags { bits: 1 }))) by {
        assert(0u8 & 1u8 != 1u8) by (bit_vector);
    }
    let voxel = cell_voxel(refs, Lod::L32, cell, 0);
    assert(Lod::L32.spec_jump_index() == 1);
    assert(cell_volume(Lod::L32) == 1);
    assert(any_target(refs, registry, BlockFlags { bits: 1 }, Lod::L32, cell, 1) == passes(
        registry,
        BlockFlags { bits: 1 },
        voxel,
    )) by {
        assert(!any_target(refs, registry, BlockFlags { bits: 1 }, Lod::L32, cell, 0));
    }
    assert(any_target(refs, registry, BlockFlags { bits: 2 }, Lod::L32, cell, 1) == passes(
        registry,
        BlockFlags { bits: 2 },
        voxel,
    )) by {
        assert(!any_target(refs, registry, BlockFlags { bits: 2 }, Lod::L32, cell, 0));
    }
}

/// The voxels of a cell of the grid lie in the neighbourhood.
proof fn lemma_cell_voxel_in_reach(lod: Lod, cell: (int, int, int), i: int)
    requires
        in_grid(lod, cell),
        0 <= i < cell_volume(lod),
    ensures
        ({
            let jump = lod.spec_jump_index();
            &&& 0 <= i % jump < jump
            &&& 0 <= (i / jump) % jump < jump
            &&& 0 <= i / (jump * jump) < jump
            &&& ChunksRefs::in_reach(cell_voxel_pos(lod, cell, i))
            &&& cell_voxel_pos(lod, cell, i).x == cell.0 * jump + i % jump
            &&& cell_voxel_pos(lod, cell, i).y == cell.1 * jump + (i / jump) % jump
            &&& cell_voxel_pos(lod, cell, i).z == cell.2 * jump + i / (jump * jump)
        }),
{
    let jump = lod.spec_jump_index();
    match lod {
        Lod::L32 => {
            lemma_cell_voxel_bounds(cell, i, 1, 32);
        },
        Lod::L16 => {
            lemma_cell_voxel_bounds(cell, i, 2, 16);
        },
        Lod::L8 => {
            lemma_cell_voxel_bounds(cell, i, 4, 8);
        },
        Lod::L4 => {
            lemma_cell_voxel_bounds(cell, i, 8, 4);
        },
        Lod::L2 => {
            lemma_cell_voxel_bounds(cell, i, 16, 2);
        },
    }
}

/// The `i`-th voxel of a cell of `jump` voxels a side lies within the
/// cell, and the cell within a chunk's length of the middle chunk.
proof fn lemma_cell_voxel_bounds(cell: (int, int, int), i: int, jump: int, size: int)
    requires
        1 <= jump <= 16,
        jump * size == 32,
        -1 <= cell.0 <= size,
        -1 <= cell.1 <= size,
        -1 <= cell.2 <= size,
        0 <= i < jump * jump * jump,
    ensures
        0 <= i % jump < jump,
        0 <= (i / jump) % jump < jump,
        0 <= i / (jump * jump) < jump,
        -32 <= cell.0 * jump <= 32,
        -32 <= cell.1 * jump <= 32,
        -32 <= cell.2 * jump <= 32,
{
    assert(-32 <= cell.0 * jump <= 32 && -32 <= cell.1 * jump <= 32 && -32 <= cell.2 * jump <= 32)
        by (nonlinear_arith)
        requires
            -1 <= cell.0 <= size,
            -1 <= cell.1 <= size,
            -1 <= cell.2 <= size,
            jump * size == 32,
            1 <= jump <= 16,
    ;
    assert(0 < jump * jump) by (nonlinear_arith)
        requires
            1 <= jump,
    ;
    vstd::arithmetic::div_mod::lemma_mod_bound(i, jump);
    vstd::arithmetic::div_mod::lemma_div_pos_is_pos(i, jump);
    vstd::arithmetic::div_mod::lemma_mod_bound(i / jump, jump);
    vstd::arithmetic::div_mod::lemma_div_pos_is_pos(i, jump * jump);
    assert(jump * jump * jump == (jump * jump) * jump) by (nonlinear_arith);
    vstd::arithmetic::div_mod::lemma_multiply_divide_lt(i, jump * jump, jump);
}

/// The position in `ids` of `id`, if it is there.
fn position(ids: &Vec<u16>, id: u16) -> (found: Option<usize>)
    ensures
        match found {
            Some(k) => k < ids@.len() && ids@[k as int] == id,
            None => !ids@.contains(id),
        },
{
    let mut k: usize = 0;
    while k < ids.len()
        invariant
            k <= ids@.len(),
            forall|j: int| 0 <= j < k ==> ids@[j] != id,
        decreases ids@.len() - k,
    {
        if ids[k] == id {
            return Some(k);
        }
        k += 1;
    }
    None
}

/// Whether the entry at `j` of a tally comes behind the entry at `best`: it
/// counts less, or as much with a block that is not smaller.
pub open spec fn ranks_behind(ids: Seq<u16>, counts: Seq<u32>, j: int, best: int) -> bool {
    counts[j] < counts[best] || (counts[j] == counts[best] && ids[best] <= ids[j])
}

/// The position of the entry of a tally that counts most, and among those
/// that count as much has the smallest block.
fn most_frequent(ids: &Vec<u16>, counts: &Vec<u32>) -> (best: usize)
    requires
        ids@.len() == counts@.len(),
        ids@.len() > 0,
    ensures
        best < ids@.len(),
        forall|j: int| 0 <= j < ids@.len() ==> ranks_behind(ids@, counts@, j, best as int),
{
    let mut best: usize = 0;
    let mut k: usize = 1;
    while k < ids.len()
        invariant
            1 <= k <= ids@.len(),
            best < k,
            ids@.len() == counts@.len(),
            forall|j: int| 0 <= j < k ==> ranks_behind(ids@, counts@, j, best as int),
        decreases ids@.len() - k,
    {
        let ghost previous = best as int;
        if counts[k] > counts[best] || (counts[k] == counts[best] && ids[k] < ids[best]) {
            best = k;
        }
        assert forall|j: int| 0 <= j < k + 1 implies ranks_behind(
            ids@,
            counts@,
            j,
            best as int,
        ) by {
            if j < k {
                assert(ranks_behind(ids@, counts@, j, previous));
            }
        }
        k += 1;
    }
    best
}

/// Looks at the voxels of the cell `cell` and tells what the mesher needs
/// to know of it.
#[verifier::rlimit(50)]
pub fn sample_cell(
    refs: &ChunksRefs,
    registry: &BlockRegistry,
    target: BlockFlags,
    lod: Lod,
    cell: IVec3,
) -> (sampled: Cell)
    requires
        in_grid(lod, (cell.x as int, cell.y as int, cell.z as int)),
    ensures
        sampled == spec_sample(
            refs,
            registry,
            target,
            lod,
            (cell.x as int, cell.y as int, cell.z as int),
        ),
{
    let ghost at = (cell.x as int, cell.y as int, cell.z as int);
    let jump: i32 = lod.jump_index();
    let volume: i32 = jump * jump * jump;
    let mut found: bool = false;
    let mut solid: bool = false;
    let mut ids: Vec<u16> = Vec::new();
    let mut counts: Vec<u32> = Vec::new();
    let mut i: i32 = 0;
    while i < volume
        invariant
            0 <= i <= volume,
            volume == cell_volume(lod),
            jump == lod.spec_jump_index(),
            at == (cell.x as int, cell.y as int, cell.z as int),
            in_grid(lod, at),
            found == any_target(refs, registry, target, lod, at, i as int),
            solid == any_solid(refs, registry, lod, at, i as int),
            ids@.no_duplicates(),
            ids@.len() == counts@.len(),
            found == (ids@.len() > 0),
            forall|k: int|
                0 <= k < ids@.len() ==> 1 <= #[trigger] counts@[k] <= i && counts@[k]
                    == occurrences(refs, registry, target, lod, at, ids@[k], i as int),
            forall|id: u16|
                !ids@.contains(id) ==> #[trigger] occurrences(
                    refs,
                    registry,
                    target,
                    lod,
                    at,
                    id,
                    i as int,
                ) == 0,
        decreases volume - i,
    {
        proof {
            lemma_cell_voxel_in_reach(lod, at, i as int);
        }
        let pos = IVec3::new(
            cell.x * jump + i % jump,
            cell.y * jump + (i / jump) % jump,
            cell.z * jump + i / (jump * jump),
        );
        let block = *refs.get_block(pos);
        assert(block == cell_voxel(refs, lod, at, i as int));
        let flags = registry.flags_or_air(block.block_type);
        if flags.contains(BlockFlags::solid()) {
            solid = true;
        }
        let ghost old_ids = ids@;
        let ghost old_counts = counts@;
        let ghost hit: int = -1;
        if flags.contains(target) {
            found = true;
            match position(&ids, block.block_type.0) {
                Some(k) => {
                    let count: u32 = counts[k];
                    counts[k] = count + 1;
                    proof {
                        hit = k as int;
                    }
                },
                None => {
                    ids.push(block.block_type.0);
                    counts.push(1);
                    proof {
                        hit = old_ids.len() as int;
                    }
                },
            }
        }
        proof {
            assert(passes(registry, target, block) == flags.spec_contains(target));
            assert forall|id: u16|
                #[trigger] occurrences(refs, registry, target, lod, at, id, i + 1) == occurrences(
                    refs,
                    registry,
                    target,
                    lod,
                    at,
                    id,
                    i as int,
                ) + if flags.spec_contains(target) && block.block_type.0 == id {
                    1nat
                } else {
                    0nat
                } by {}
            assert forall|k: int| 0 <= k < ids@.len() implies 1 <= #[trigger] counts@[k] <= i + 1
                && counts@[k] == occurrences(refs, registry, target, lod, at, ids@[k], i + 1) by {
                if k < old_ids.len() {
                    assert(ids@[k] == old_ids[k]);
                    assert(1 <= old_counts[k] <= i);
                    assert(old_counts[k] == occurrences(
                        refs,
                        registry,
                        target,
                        lod,
                        at,
                        old_ids[k],
                        i as int,
                    ));
                    if k != hit && flags.spec_contains(target) {
                        assert(ids@[hit] == block.block_type.0);
                        assert(ids@[k] != ids@[hit]);
                    }
                } else {
                    assert(k == hit);
                    assert(!old_ids.contains(ids@[k]));
                }
            }
            assert forall|id: u16| !ids@.contains(id) implies #[trigger] occurrences(
                refs,
                registry,
                target,
                lod,
                at,
                id,
                i + 1,
            ) == 0 by {
                if old_ids.contains(id) {
                    let k = choose|k: int| 0 <= k < old_ids.len() && old_ids[k] == id;
                    assert(ids@[k] == id);
                }
                if flags.spec_contains(target) && block.block_type.0 == id {
                    if old_ids.contains(id) {
                    } else {
                        assert(ids@[old_ids.len() as int] == id);
                    }
                }
            }
        }
        i += 1;
    }
    let mut id: u16 = 0;
    if found {
        let best: usize = most_frequent(&ids, &counts);
        id = ids[best];
        proof {
            assert(is_representative(refs, registry, target, lod, at, id)) by {
                let n = cell_volume(lod);
                assert(n == i);
                assert(1 <= counts@[best as int] && counts@[best as int] == occurrences(
                    refs,
                    registry,
                    target,
                    lod,
                    at,
                    ids@[best as int],
                    n,
                ));
                assert forall|other: u16|
                    {
                        let theirs = #[trigger] occurrences(
                            refs,
                            registry,
                            target,
                            lod,
                            at,
                            other,
                            n,
                        );
                        let ours = occurrences(refs, registry, target, lod, at, id, n);
                        theirs < ours || (theirs == ours && id <= other)
                    } by {
                    if ids@.contains(other) {
                        let j = choose|j: int| 0 <= j < ids@.len() && ids@[j] == other;
                        assert(ranks_behind(ids@, counts@, j, best as int));
                        assert(1 <= counts@[j] && counts@[j] == occurrences(
                            refs,
                            registry,
                            target,
                            lod,
                            at,
                            ids@[j],
                            n,
                        ));
                    }
                }
            }
            let chosen = choose|id: u16| is_representative(refs, registry, target, lod, at, id);
            lemma_representative_unique(refs, registry, target, lod, at, id, chosen);
        }
    }
    Cell { target: found, solid, id }
}

/// The number of cells that a grid holds: 34 along each axis, for the
/// most cells that a level of detail has and one more on either side.
pub const GRID_CELLS: usize = 39304;

/// The place of a cell in the list of cells of a grid.
pub open spec fn grid_index(cell: (int, int, int)) -> int {
    (cell.0 + 1) + (cell.1 + 1) * 34 + (cell.2 + 1) * 1156
}

/// What the mesher knows of each cell of a chunk and of the cells that
/// border the chunk.
pub struct CellGrid {
    cells: Vec<Cell>,
}

impl CellGrid {
    /// The grid has a place for each cell.
    #[verifier::type_invariant]
    spec fn complete(self) -> bool {
        self.cells@.len() == GRID_CELLS
    }

    /// What the grid holds of the cell `cell`.
    pub closed spec fn spec_cell(&self, cell: (int, int, int)) -> Cell {
        self.cells@[grid_index(cell)]
    }

    /// Whether the grid holds what sampling gives of each cell.
    pub open spec fn samples(
        &self,
        refs: &ChunksRefs,
        registry: &BlockRegistry,
        target: BlockFlags,
        lod: Lod,
    ) -> bool {
        forall|x: int, y: int, z: int|
            in_grid(lod, (x, y, z)) ==> self.spec_cell((x, y, z)) == #[trigger] spec_sample(
                refs,
                registry,
                target,
                lod,
                (x, y, z),
            )
    }

    /// What the grid holds of the cell at (`x`, `y`, `z`).
    pub fn cell(&self, x: i32, y: i32, z: i32) -> (cell: Cell)
        requires
            -1 <= x <= 32,
            -1 <= y <= 32,
            -1 <= z <= 32,
        ensures
            cell == self.spec_cell((x as int, y as int, z as int)),
    {
        proof {
            use_type_invariant(self);
        }
        let index: usize = ((x + 1) + (y + 1) * 34 + (z + 1) * 1156) as usize;
        self.cells[index]
    }

    /// Samples each cell of the chunk and of its border.
    #[verifier::rlimit(50)]
    pub fn build(
        refs: &ChunksRefs,
        registry: &BlockRegistry,
        target: BlockFlags,
        lod: Lod,
    ) -> (grid: CellGrid)
        ensures
            grid.samples(refs, registry, target, lod),
    {
        let blank = Cell { target: false, solid: false, id: 0 };
        let mut cells: Vec<Cell> = Vec::new();
        let mut filled: usize = 0;
        while filled < GRID_CELLS
            invariant
                filled <= GRID_CELLS,
                cells@.len() == filled,
            decreases GRID_CELLS - filled,
        {
            cells.push(blank);
            filled += 1;
        }
        let size: i32 = lod.size();
        let mut z: i32 = -1;
        while z <= size
            invariant
                size == lod.spec_size(),
                2 <= size <= 32,
                -1 <= z <= size + 1,
                cells@.len() == GRID_CELLS,
                forall|cx: int, cy: int, cz: int|
                    in_grid(lod, (cx, cy, cz)) && cz < z ==> cells@[grid_index((cx, cy, cz))]
                        == #[trigger] spec_sample(refs, registry, target, lod, (cx, cy, cz)),
            decreases size + 1 - z,
        {
            let mut y: i32 = -1;
            while y <= size
                invariant
                    size == lod.spec_size(),
                    2 <= size <= 32,
                    -1 <= z <= size,
                    -1 <= y <= size + 1,
                    cells@.len() == GRID_CELLS,
                    forall|cx: int, cy: int, cz: int|
                        in_grid(lod, (cx, cy, cz)) && (cz < z || (cz == z && cy < y))
                            ==> cells@[grid_index((cx, cy, cz))] == #[trigger] spec_sample(
                            refs,
                            registry,
                            target,
                            lod,
                            (cx, cy, cz),
                        ),
                decreases size + 1 - y,
            {
                let mut x: i32 = -1;
                while x <= size
                    invariant
                        size == lod.spec_size(),
                        2 <= size <= 32,
                        -1 <= z <= size,
                        -1 <= y <= size,
                        -1 <= x <= size + 1,
                        cells@.len() == GRID_CELLS,
                        forall|cx: int, cy: int, cz: int|
                            in_grid(lod, (cx, cy, cz)) && (cz < z || (cz == z && (cy < y || (cy == y
                                && cx < x)))) ==> cells@[grid_index((cx, cy, cz))]
                                == #[trigger] spec_sample(
                                refs,
                                registry,
                                target,
                                lod,
                                (cx, cy, cz),
                            ),
                    decreases size + 1 - x,
                {
                    let sampled = sample_cell(refs, registry, target, lod, IVec3::new(x, y, z));
                    let index: usize = ((x + 1) + (y + 1) * 34 + (z + 1) * 1156) as usize;
                    cells[index] = sampled;
                    x += 1;
                }
                y += 1;
            }
            z += 1;
        }
        CellGrid { cells }
    }
}

} // verus!
