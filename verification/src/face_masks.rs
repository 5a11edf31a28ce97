use crate::cell_grid::{in_grid, CellGrid, MeshSettings};
use crate::chunks_refs::ChunksRefs;
use crate::face_direction::FaceDir;
use crate::greedy_mesher_optimized::{face_visible, grid_cell, same_block_rule};
use crate::voxel::{BlockFlags, BlockRegistry};
use vstd::prelude::*;

verus! {

/// Whether bit `k` of `column` is set.
pub open spec fn column_bit(column: u64, k: int) -> bool {
    0 <= k < 64 && (column >> (k as u64)) & 1u64 == 1u64
}

/// The cells along one axis, at one row and bit across it, as bits: bit
/// `k` tells of the cell at depth `k - 1`, so that bit 0 tells of the cell
/// before the chunk and the bit after the last depth of the cell behind it.
#[derive(Clone, Copy, Debug)]
pub struct Columns {
    /// The cells that are part of the mesh.
    pub target: u64,
    /// The cells that are solid.
    pub solid: u64,
    /// The cells that hide a face of the next cell, and have theirs hidden
    /// by it, if both are part of the mesh: all where every block hides
    /// every other, else those that stand for the same block as the next.
    pub same: u64,
}

/// Whether `columns` tells of the cells at row `x` and bit `y` along the
/// axis of `dir`.
pub open spec fn columns_match(
    columns: Columns,
    refs: &ChunksRefs,
    registry: &BlockRegistry,
    settings: MeshSettings,
    dir: FaceDir,
    x: int,
    y: int,
    upto: int,
) -> bool {
    &&& forall|k: int|
        0 <= k < upto ==> (#[trigger] column_bit(columns.target, k) <==> grid_cell(
            refs,
            registry,
            settings,
            dir.spec_cell(k - 1, x, y),
        ).target)
    &&& forall|k: int|
        0 <= k < upto ==> (#[trigger] column_bit(columns.solid, k) <==> grid_cell(
            refs,
            registry,
            settings,
            dir.spec_cell(k - 1, x, y),
        ).solid)
    &&& forall|k: int|
        0 <= k < upto - 1 ==> (#[trigger] column_bit(columns.same, k) <==> !same_block_rule(
            settings,
        ) || grid_cell(refs, registry, settings, dir.spec_cell(k - 1, x, y)).id == grid_cell(
            refs,
            registry,
            settings,
            dir.spec_cell(k, x, y),
        ).id)
}

/// The cells of a column that show a face: those that are part of the
/// mesh, without those that the cell beside them hides. For a direction
/// towards rising depths the cell beside a cell is the next, so that the
/// columns are held against themselves moved down by one bit; for the other
/// direction, moved up.
pub open spec fn spec_face_mask(columns: Columns, cull_solid: bool, positive: bool) -> u64 {
    let beside_target = if positive {
        (columns.target >> 1u64) & columns.same
    } else {
        (columns.target << 1u64) & (columns.same << 1u64)
    };
    let beside_solid = if !cull_solid {
        0u64
    } else if positive {
        columns.solid >> 1u64
    } else {
        columns.solid << 1u64
    };
    columns.target & !beside_target & !beside_solid
}

/// Whether `masks` holds, for each row and bit of the planes across the
/// axis of `dir`, the cells that show a face in direction `dir`, the cell at
/// depth `d` in bit `d + 1`.
pub open spec fn masks_match(
    masks: Seq<u64>,
    refs: &ChunksRefs,
    registry: &BlockRegistry,
    settings: MeshSettings,
    dir: FaceDir,
    rows: int,
) -> bool {
    forall|x: int, y: int, d: int|
        0 <= x < rows && 0 <= y < settings.lod.spec_size() && 0 <= d < settings.lod.spec_size()
            ==> (column_bit(masks[x * 32 + y], d + 1) <==> #[trigger] face_visible(
            refs,
            registry,
            settings,
            dir,
            d,
            x,
            y,
        ))
}

/// Whether `column` has no bit at or above bit `k`.
pub open spec fn clear_from(column: u64, k: int) -> bool {
    forall|j: int| k <= j < 64 ==> !#[trigger] column_bit(column, j)
}

/// Setting bit `k` of a column sets that bit and leaves the others; the
/// empty column has no bit.
proof fn lemma_set_column_bit(column: u64, k: u64, j: u64)
    requires
        k < 64,
        j < 64,
    ensures
        column_bit(column | (1u64 << k), j as int) == (column_bit(column, j as int) || j == k),
        !column_bit(0u64, j as int),
{
    assert((((column | (1u64 << k)) >> j) & 1u64 == 1u64) == (((column >> j) & 1u64 == 1u64) || j
        == k)) by (bit_vector)
        requires
            k < 64,
            j < 64,
    ;
    assert((0u64 >> j) & 1u64 == 0u64) by (bit_vector);
}

/// A face mask has the bit of a cell just where the cell is part of the
/// mesh and the cell beside it neither hides its face as part of the mesh
/// nor, where solid cells hide faces, as a solid cell.
proof fn lemma_face_mask_bit(columns: Columns, cull_solid: bool, positive: bool, k: u64)
    requires
        1 <= k < 63,
    ensures
        column_bit(spec_face_mask(columns, cull_solid, positive), k as int) == if positive {
            column_bit(columns.target, k as int) && !(column_bit(columns.target, k + 1)
                && column_bit(columns.same, k as int)) && !(cull_solid && column_bit(
                columns.solid,
                k + 1,
            ))
        } else {
            column_bit(columns.target, k as int) && !(column_bit(columns.target, k - 1)
                && column_bit(columns.same, k - 1)) && !(cull_solid && column_bit(
                columns.solid,
                k - 1,
            ))
        },
{
    let t = columns.target;
    let s = columns.solid;
    let e = columns.same;
    let up: u64 = (k + 1) as u64;
    let down: u64 = (k - 1) as u64;
    if positive {
        assert((((t & !((t >> 1u64) & e) & !(s >> 1u64)) >> k) & 1u64 == 1u64) == (((t >> k) & 1u64
            == 1u64) && !(((t >> up) & 1u64 == 1u64) && ((e >> k) & 1u64 == 1u64)) && !((s >> up)
            & 1u64 == 1u64))) by (bit_vector)
            requires
                1 <= k < 63,
                up == k + 1,
        ;
        assert((((t & !((t >> 1u64) & e) & !0u64) >> k) & 1u64 == 1u64) == (((t >> k) & 1u64
            == 1u64) && !(((t >> up) & 1u64 == 1u64) && ((e >> k) & 1u64 == 1u64))))
            by (bit_vector)
            requires
                1 <= k < 63,
                up == k + 1,
        ;
    } else {
        assert((((t & !((t << 1u64) & (e << 1u64)) & !(s << 1u64)) >> k) & 1u64 == 1u64) == (((t
            >> k) & 1u64 == 1u64) && !(((t >> down) & 1u64 == 1u64) && ((e >> down) & 1u64
            == 1u64)) && !((s >> down) & 1u64 == 1u64))) by (bit_vector)
            requires
                1 <= k < 63,
                down == k - 1,
        ;
        assert((((t & !((t << 1u64) & (e << 1u64)) & !0u64) >> k) & 1u64 == 1u64) == (((t >> k)
            & 1u64 == 1u64) && !(((t >> down) & 1u64 == 1u64) && ((e >> down) & 1u64 == 1u64))))
            by (bit_vector)
            requires
                1 <= k < 63,
                down == k - 1,
        ;
    }
}

/// The face mask of the columns of a row and bit has the bit of a cell
/// just where the cell shows a face.
proof fn lemma_face_mask(
    columns: Columns,
    refs: &ChunksRefs,
    registry: &BlockRegistry,
    settings: MeshSettings,
    dir: FaceDir,
    x: int,
    y: int,
    d: int,
)
    requires
        columns_match(columns, refs, registry, settings, dir, x, y, settings.lod.spec_size() + 2),
        0 <= d < settings.lod.spec_size() <= 32,
    ensures
        column_bit(
            spec_face_mask(columns, !settings.cull_against_self_only, dir.spec_is_positive()),
            d + 1,
        ) <==> face_visible(refs, registry, settings, dir, d, x, y),
{
    let k: u64 = (d + 1) as u64;
    lemma_face_mask_bit(columns, !settings.cull_against_self_only, dir.spec_is_positive(), k);
    let cell = grid_cell(refs, registry, settings, dir.spec_cell(d, x, y));
    assert(column_bit(columns.target, d + 1) <==> cell.target);
    if dir.spec_is_positive() {
        let beside = grid_cell(refs, registry, settings, dir.spec_cell(d + 1, x, y));
        assert(dir.spec_ao_cell(d, x, y, 0, 0) == dir.spec_cell(d + 1, x, y));
        assert(column_bit(columns.target, d + 2) <==> beside.target);
        assert(column_bit(columns.solid, d + 2) <==> beside.solid);
        assert(column_bit(columns.same, d + 1) <==> !same_block_rule(settings) || cell.id
            == beside.id);
    } else {
        let beside = grid_cell(refs, registry, settings, dir.spec_cell(d - 1, x, y));
        assert(dir.spec_ao_cell(d, x, y, 0, 0) == dir.spec_cell(d - 1, x, y));
        assert(column_bit(columns.target, d) <==> beside.target);
        assert(column_bit(columns.solid, d) <==> beside.solid);
        assert(column_bit(columns.same, d) <==> !same_block_rule(settings) || beside.id
            == cell.id);
    }
}

/// Gathers the cells at row `x` and bit `y` along the axis of `dir` into
/// columns of bits.
#[verifier::rlimit(50)]
fn build_columns(
    grid: &CellGrid,
    Ghost(refs): Ghost<&ChunksRefs>,
    Ghost(registry): Ghost<&BlockRegistry>,
    settings: MeshSettings,
    dir: FaceDir,
    x: i32,
    y: i32,
) -> (columns: Columns)
    requires
        grid.samples(refs, registry, settings.target, settings.lod),
        0 <= x < settings.lod.spec_size(),
        0 <= y < settings.lod.spec_size(),
    ensures
        columns_match(
            columns,
            refs,
            registry,
            settings,
            dir,
            x as int,
            y as int,
            settings.lod.spec_size() + 2,
        ),
{
    let size: i32 = settings.lod.size();
    let same_block: bool = settings.target.contains(BlockFlags::transparent());
    let mut columns = Columns { target: 0, solid: 0, same: 0 };
    let mut previous: u16 = 0;
    let mut k: i32 = 0;
    proof {
        assert forall|j: int| 0 <= j < 64 implies !column_bit(0u64, j) by {
            lemma_set_column_bit(0u64, 0u64, j as u64);
        }
    }
    while k <= size + 1
        invariant
            grid.samples(refs, registry, settings.target, settings.lod),
            size == settings.lod.spec_size(),
            2 <= size <= 32,
            0 <= x < size,
            0 <= y < size,
            0 <= k <= size + 2,
            same_block == same_block_rule(settings),
            columns_match(columns, refs, registry, settings, dir, x as int, y as int, k as int),
            clear_from(columns.target, k as int),
            clear_from(columns.solid, k as int),
            clear_from(columns.same, k - 1),
            k > 0 ==> previous == grid_cell(
                refs,
                registry,
                settings,
                dir.spec_cell(k - 2, x as int, y as int),
            ).id,
        decreases size + 2 - k,
    {
        let at = dir.cell(k - 1, x, y);
        proof {
            assert(in_grid(settings.lod, (at.x as int, at.y as int, at.z as int)));
        }
        let cell = grid.cell(at.x, at.y, at.z);
        let ghost before = columns;
        if cell.target {
            columns.target = columns.target | (1u64 << (k as u64));
        }
        if cell.solid {
            columns.solid = columns.solid | (1u64 << (k as u64));
        }
        if k > 0 && (!same_block || previous == cell.id) {
            columns.same = columns.same | (1u64 << ((k - 1) as u64));
        }
        proof {
            assert forall|j: int| 0 <= j < k + 1 implies (#[trigger] column_bit(columns.target, j)
                <==> grid_cell(
                refs,
                registry,
                settings,
                dir.spec_cell(j - 1, x as int, y as int),
            ).target) by {
                lemma_set_column_bit(before.target, k as u64, j as u64);
                if j < k {
                    assert(column_bit(before.target, j) <==> grid_cell(
                        refs,
                        registry,
                        settings,
                        dir.spec_cell(j - 1, x as int, y as int),
                    ).target);
                } else {
                    assert(!column_bit(before.target, j));
                }
            }
            assert forall|j: int| 0 <= j < k + 1 implies (#[trigger] column_bit(columns.solid, j)
                <==> grid_cell(
                refs,
                registry,
                settings,
                dir.spec_cell(j - 1, x as int, y as int),
            ).solid) by {
                lemma_set_column_bit(before.solid, k as u64, j as u64);
                if j < k {
                    assert(column_bit(before.solid, j) <==> grid_cell(
                        refs,
                        registry,
                        settings,
                        dir.spec_cell(j - 1, x as int, y as int),
                    ).solid);
                } else {
                    assert(!column_bit(before.solid, j));
                }
            }
            assert forall|j: int| 0 <= j < k implies (#[trigger] column_bit(columns.same, j)
                <==> !same_block_rule(settings) || grid_cell(
                refs,
                registry,
                settings,
                dir.spec_cell(j - 1, x as int, y as int),
            ).id == grid_cell(refs, registry, settings, dir.spec_cell(j, x as int, y as int)).id) by {
                if k > 0 {
                    lemma_set_column_bit(before.same, (k - 1) as u64, j as u64);
                    if j < k - 1 {
                        assert(column_bit(before.same, j) <==> !same_block_rule(settings)
                            || grid_cell(
                            refs,
                            registry,
                            settings,
                            dir.spec_cell(j - 1, x as int, y as int),
                        ).id == grid_cell(
                            refs,
                            registry,
                            settings,
                            dir.spec_cell(j, x as int, y as int),
                        ).id);
                    } else {
                        assert(!column_bit(before.same, j));
                    }
                }
            }
            assert forall|j: int| k + 1 <= j < 64 implies !#[trigger] column_bit(
                columns.target,
                j,
            ) by {
                lemma_set_column_bit(before.target, k as u64, j as u64);
                assert(!column_bit(before.target, j));
            }
            assert forall|j: int| k + 1 <= j < 64 implies !#[trigger] column_bit(
                columns.solid,
                j,
            ) by {
                lemma_set_column_bit(before.solid, k as u64, j as u64);
                assert(!column_bit(before.solid, j));
            }
            assert forall|j: int| k <= j < 64 implies !#[trigger] column_bit(columns.same, j) by {
                if k > 0 {
                    lemma_set_column_bit(before.same, (k - 1) as u64, j as u64);
                }
                assert(!column_bit(before.same, j));
            }
        }
        previous = cell.id;
        k += 1;
    }
    columns
}

/// The cells that show a face among those of `columns`.
fn face_mask(columns: Columns, settings: MeshSettings, dir: FaceDir) -> (mask: u64)
    ensures
        mask == spec_face_mask(columns, !settings.cull_against_self_only, dir.spec_is_positive()),
{
    let positive: bool = dir.axis_step() > 0;
    let beside_target: u64 = if positive {
        (columns.target >> 1u64) & columns.same
    } else {
        (columns.target << 1u64) & (columns.same << 1u64)
    };
    let beside_solid: u64 = if settings.cull_against_self_only {
        0
    } else if positive {
        columns.solid >> 1u64
    } else {
        columns.solid << 1u64
    };
    columns.target & !beside_target & !beside_solid
}

/// Finds the cells that show a face in direction `dir`: for each row and
/// bit of the planes across the axis of `dir`, the column of cells along the
/// axis is held against its neighbours in the column.
#[verifier::rlimit(50)]
pub(crate) fn face_masks(
    grid: &CellGrid,
    Ghost(refs): Ghost<&ChunksRefs>,
    Ghost(registry): Ghost<&BlockRegistry>,
    settings: MeshSettings,
    dir: FaceDir,
) -> (masks: Vec<u64>)
    requires
        grid.samples(refs, registry, settings.target, settings.lod),
    ensures
        masks@.len() == 1024,
        masks_match(masks@, refs, registry, settings, dir, settings.lod.spec_size()),
{
    let size: i32 = settings.lod.size();
    let mut masks: Vec<u64> = Vec::new();
    let mut filled: usize = 0;
    while filled < 1024
        invariant
            filled <= 1024,
            masks@.len() == filled,
        decreases 1024 - filled,
    {
        masks.push(0);
        filled += 1;
    }
    let mut x: i32 = 0;
    while x < size
        invariant
            grid.samples(refs, registry, settings.target, settings.lod),
            size == settings.lod.spec_size(),
            2 <= size <= 32,
            0 <= x <= size,
            masks@.len() == 1024,
            masks_match(masks@, refs, registry, settings, dir, x as int),
        decreases size - x,
    {
        let mut y: i32 = 0;
        while y < size
            invariant
                grid.samples(refs, registry, settings.target, settings.lod),
                size == settings.lod.spec_size(),
                2 <= size <= 32,
                0 <= x < size,
                0 <= y <= size,
                masks@.len() == 1024,
                masks_match(masks@, refs, registry, settings, dir, x as int),
                forall|b: int, d: int|
                    0 <= b < y && 0 <= d < size ==> (column_bit(masks@[x * 32 + b], d + 1)
                        <==> #[trigger] face_visible(
                        refs,
                        registry,
                        settings,
                        dir,
                        d,
                        x as int,
                        b,
                    )),
            decreases size - y,
        {
            let columns = build_columns(grid, Ghost(refs), Ghost(registry), settings, dir, x, y);
            let mask = face_mask(columns, settings, dir);
            let ghost before = masks@;
            masks[(x * 32 + y) as usize] = mask;
            proof {
                assert forall|b: int, d: int| 0 <= b < y + 1 && 0 <= d < size implies (column_bit(
                    masks@[x * 32 + b],
                    d + 1,
                ) <==> #[trigger] face_visible(refs, registry, settings, dir, d, x as int, b)) by {
                    if b < y {
                        assert(masks@[x * 32 + b] == before[x * 32 + b]);
                    } else {
                        lemma_face_mask(columns, refs, registry, settings, dir, x as int, b, d);
                    }
                }
                assert forall|x2: int, b: int, d: int|
                    0 <= x2 < x && 0 <= b < size && 0 <= d < size implies (column_bit(
                    masks@[x2 * 32 + b],
                    d + 1,
                ) <==> #[trigger] face_visible(refs, registry, settings, dir, d, x2, b)) by {
                    assert(masks@[x2 * 32 + b] == before[x2 * 32 + b]);
                }
            }
            y += 1;
        }
        x += 1;
    }
    masks
}

/// Whether the cell at depth `axis`, row `x` and bit `y` shows a face, by
/// its bit in the face mask of its column.
pub(crate) fn shows_face(
    masks: &Vec<u64>,
    Ghost(refs): Ghost<&ChunksRefs>,
    Ghost(registry): Ghost<&BlockRegistry>,
    settings: MeshSettings,
    dir: FaceDir,
    axis: i32,
    x: i32,
    y: i32,
) -> (visible: bool)
    requires
        masks@.len() == 1024,
        masks_match(masks@, refs, registry, settings, dir, settings.lod.spec_size()),
        0 <= axis < settings.lod.spec_size() <= 32,
        0 <= x < settings.lod.spec_size(),
        0 <= y < settings.lod.spec_size(),
    ensures
        visible == face_visible(refs, registry, settings, dir, axis as int, x as int, y as int),
{
    let mask: u64 = masks[(x * 32 + y) as usize];
    (mask >> ((axis + 1) as u64)) & 1 == 1
}

} // verus!
