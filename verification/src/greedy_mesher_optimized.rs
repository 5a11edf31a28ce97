use crate::cell_grid::{in_grid, spec_sample, Cell, CellGrid, MeshSettings};
use crate::chunk_mesh::ChunkMesh;
use crate::chunks_refs::ChunksRefs;
use crate::face_direction::FaceDir;
use crate::face_masks::{face_masks, masks_match, shows_face};
use crate::lod::Lod;
use crate::quad::GreedyQuad;
use crate::utils::{generate_indices, spec_generate_indices};
use crate::voxel::{BlockFlags, BlockRegistry};
use vstd::prelude::*;
use vstd::std_specs::bits::{
    axiom_u32_trailing_ones, axiom_u32_trailing_zeros, u32_trailing_ones, u32_trailing_zeros,
};

verus! {

/// A mask of the lowest `h` bits.
pub open spec fn spec_run_mask(h: u32) -> u32 {
    if h >= 32 {
        !0u32
    } else {
        ((1u32 << h) - 1) as u32
    }
}

/// How many rows a quad spans that starts in row `row` and covers the bits
/// of `h_mask` from bit `y` on: it grows from `w` rows for as long as the
/// next row lies below `lod_size` and has all those bits set.
pub open spec fn spec_quad_width(
    data: Seq<u32>,
    row: int,
    y: u32,
    h_mask: u32,
    lod_size: int,
    w: int,
) -> int
    decreases lod_size - row - w,
{
    if row + w < lod_size && 0 <= row + w < data.len() && (data[row + w] >> y) & h_mask == h_mask {
        spec_quad_width(data, row, y, h_mask, lod_size, w + 1)
    } else {
        w
    }
}

/// The plane without the bits of `mask` in the `w - 1` rows after `row`.
pub open spec fn spec_clear_quad(data: Seq<u32>, row: int, w: int, mask: u32) -> Seq<u32> {
    Seq::new(
        data.len(),
        |i: int|
            if row < i < row + w {
                data[i] & !mask
            } else {
                data[i]
            },
    )
}

/// The quads that greedy meshing takes from a plane, from bit `y` of row
/// `row` on.
///
/// The first set bit from there on, below `lod_size`, starts a quad. The
/// quad takes the run of set bits that starts there, and as many of the
/// next rows as have that whole run set; what it takes of the next rows is
/// cleared. Meshing goes on behind the run, and from the start of the next
/// row when no set bit is left below `lod_size`.
pub open spec fn spec_greedy_from(data: Seq<u32>, lod_size: u32, row: int, y: u32) -> Seq<
    GreedyQuad,
>
    decreases 32 - row, (if y < 32 {
        32 - y
    } else {
        0
    }),
{
    if row < 0 || row >= 32 || row >= data.len() {
        Seq::empty()
    } else if y >= lod_size || y >= 32 {
        spec_greedy_from(data, lod_size, row + 1, 0)
    } else {
        let start = (y + u32_trailing_zeros(data[row] >> y)) as u32;
        if start >= lod_size || start >= 32 {
            spec_greedy_from(data, lod_size, row + 1, 0)
        } else {
            let h = u32_trailing_ones(data[row] >> start);
            if h == 0 {
                spec_greedy_from(data, lod_size, row + 1, 0)
            } else {
                let h_mask = spec_run_mask(h);
                let mask = h_mask << start;
                let w = spec_quad_width(data, row, start, h_mask, lod_size as int, 1);
                seq![GreedyQuad { x: row as u32, y: start, w: w as u32, h }] + spec_greedy_from(
                    spec_clear_quad(data, row, w, mask),
                    lod_size,
                    row,
                    (start + h) as u32,
                )
            }
        }
    }
}

/// The quads that greedy meshing takes from the plane `data`, a list of
/// rows of bits, of which the first `lod_size` rows and bits count.
pub open spec fn spec_greedy_mesh_binary_plane(data: Seq<u32>, lod_size: u32) -> Seq<GreedyQuad> {
    spec_greedy_from(data, lod_size, 0, 0)
}

/// Whether a quad lies in a plane of 32 rows of 32 bits, starts below bit
/// `lod_size` and, where it spans more than one row, ends within the first
/// `lod_size` rows.
pub open spec fn quad_fits(quad: GreedyQuad, lod_size: u32) -> bool {
    &&& quad.in_plane()
    &&& quad.y < lod_size
    &&& 1 <= quad.w
    &&& 1 <= quad.h
    &&& quad.w == 1 || quad.x + quad.w <= lod_size
}

/// A run of set bits that starts at bit `start` ends within the 32 bits,
/// and where bit `start` is the first set bit from `y` on, it has at least
/// one bit.
pub proof fn lemma_run(bits: u32, y: u32, start: u32)
    requires
        y < 32,
        start == y + u32_trailing_zeros(bits >> y),
        start < 32,
    ensures
        1 <= u32_trailing_ones(bits >> start) <= 32 - start,
{
    let shifted = bits >> y;
    let zeros = u32_trailing_zeros(shifted);
    let run = bits >> start;
    let ones = u32_trailing_ones(run);
    axiom_u32_trailing_zeros(shifted);
    axiom_u32_trailing_ones(run);
    assert((bits >> y) >> zeros == bits >> start) by (bit_vector)
        requires
            start == y + zeros,
            start < 32,
    ;
    assert(run >> 0u32 == run) by (bit_vector);
    if ones == 0 {
        assert((run >> 0u32) & 1u32 == 0u32);
    }
    if ones > 32 - start {
        let j: u32 = (32 - start) as u32;
        assert((run >> j) & 1u32 == 1u32);
        assert((bits >> start) >> j & 1u32 == 0u32) by (bit_vector)
            requires
                j == 32 - start,
                1 <= start < 32,
        ;
    }
}

/// Turns a plane of faces into quads by greedy meshing.
///
/// `data` holds one row of the plane in each entry and one face in each
/// bit; the first `lod_size` rows and bits count. A quad starts at each set
/// bit that no earlier quad has taken, rows and bits ascending.
#[verifier::rlimit(50)]
pub fn greedy_mesh_binary_plane(data: [u32; 32], lod_size: u32) -> (quads: Vec<GreedyQuad>)
    requires
        lod_size <= 32,
    ensures
        quads@ == spec_greedy_mesh_binary_plane(data@, lod_size),
        forall|i: int| 0 <= i < quads@.len() ==> quad_fits(#[trigger] quads@[i], lod_size),
        quads@.len() <= 1024,
{
    let mut data = data;
    let ghost total = spec_greedy_mesh_binary_plane(data@, lod_size);
    let mut greedy_quads: Vec<GreedyQuad> = Vec::new();
    let mut row: usize = 0;
    while row < 32
        invariant
            row <= 32,
            lod_size <= 32,
            greedy_quads@.len() <= 32 * row,
            greedy_quads@ + spec_greedy_from(data@, lod_size, row as int, 0) == total,
            forall|i: int|
                0 <= i < greedy_quads@.len() ==> quad_fits(#[trigger] greedy_quads@[i], lod_size),
        decreases 32 - row,
    {
        let mut y: u32 = 0;
        while y < lod_size
            invariant
                row < 32,
                lod_size <= 32,
                greedy_quads@.len() <= 32 * row + if y < 32 {
                    y as int
                } else {
                    32int
                },
                greedy_quads@ + spec_greedy_from(data@, lod_size, row as int, y) == total,
                forall|i: int|
                    0 <= i < greedy_quads@.len() ==> quad_fits(
                        #[trigger] greedy_quads@[i],
                        lod_size,
                    ),
            decreases
                    (if y < 32 {
                        32 - y
                    } else {
                        0
                    }),
        {
            proof {
                axiom_u32_trailing_zeros(data[row as int] >> y);
            }
            let start: u32 = y + (data[row] >> y).trailing_zeros();
            if start >= lod_size {
                y = start;
            } else {
                proof {
                    lemma_run(data[row as int], y, start);
                }
                let h: u32 = (data[row] >> start).trailing_ones();
                let h_as_mask: u32 = if h >= 32 {
                    !0u32
                } else {
                    assert(1u32 << h >= 1) by (bit_vector)
                        requires
                            h < 32,
                    ;
                    (1u32 << h) - 1
                };
                let mask: u32 = h_as_mask << start;
                let ghost plane = data@;
                let mut w: usize = 1;
                let mut growing: bool = true;
                while growing && row + w < lod_size as usize
                    invariant
                        row < 32,
                        lod_size <= 32,
                        1 <= w,
                        start < 32,
                        w == 1 || row + w <= lod_size,
                        plane.len() == 32,
                        data@ == spec_clear_quad(plane, row as int, w as int, mask),
                        spec_quad_width(plane, row as int, start, h_as_mask, lod_size as int, 1)
                            == spec_quad_width(
                            plane,
                            row as int,
                            start,
                            h_as_mask,
                            lod_size as int,
                            w as int,
                        ),
                        !growing ==> spec_quad_width(
                            plane,
                            row as int,
                            start,
                            h_as_mask,
                            lod_size as int,
                            w as int,
                        ) == w,
                    decreases lod_size - row - w + if growing { 1int } else { 0int },
                {
                    let next_row_h: u32 = (data[row + w] >> start) & h_as_mask;
                    assert(data@[row + w] == plane[row + w]);
                    if next_row_h != h_as_mask {
                        growing = false;
                    } else {
                        data[row + w] = data[row + w] & !mask;
                        w += 1;
                        assert(data@ =~= spec_clear_quad(plane, row as int, w as int, mask));
                    }
                }
                greedy_quads.push(GreedyQuad { y: start, w: w as u32, h, x: row as u32 });
                proof {
                    assert(data@[row as int] == plane[row as int]);
                }
                y = start + h;
            }
        }
        row += 1;
    }
    assert(spec_greedy_from(data@, lod_size, 32, 0) =~= Seq::<GreedyQuad>::empty());
    assert(greedy_quads@ =~= total);
    greedy_quads
}

/// What the mesher knows of the cell `cell`.
pub open spec fn grid_cell(
    refs: &ChunksRefs,
    registry: &BlockRegistry,
    settings: MeshSettings,
    cell: (int, int, int),
) -> Cell {
    spec_sample(refs, registry, settings.target, settings.lod, cell)
}

/// Whether blocks of the same kind hide each other's faces while blocks
/// of different kinds do not: so it is where transparent blocks are meshed.
pub open spec fn same_block_rule(settings: MeshSettings) -> bool {
    settings.target.spec_contains(BlockFlags { bits: 2 })
}

/// Whether the cell `neighbour` hides the face that the cell `cell` turns
/// towards it: `neighbour` is part of the mesh, and of the same block where
/// that counts, or it is solid and solid cells are to hide faces.
pub open spec fn occludes(settings: MeshSettings, neighbour: Cell, cell: Cell) -> bool {
    (neighbour.target && (!same_block_rule(settings) || neighbour.id == cell.id)) || (
    !settings.cull_against_self_only && neighbour.solid)
}

/// Whether the cell at depth `axis`, row `x` and bit `y` shows a face in
/// direction `dir`: it is part of the mesh and the cell in front of it does
/// not hide the face.
pub open spec fn face_visible(
    refs: &ChunksRefs,
    registry: &BlockRegistry,
    settings: MeshSettings,
    dir: FaceDir,
    axis: int,
    x: int,
    y: int,
) -> bool {
    let cell = grid_cell(refs, registry, settings, dir.spec_cell(axis, x, y));
    let neighbour = grid_cell(refs, registry, settings, dir.spec_ao_cell(axis, x, y, 0, 0));
    cell.target && !occludes(settings, neighbour, cell)
}

/// The first `n` bits of the mask of solid cells in front of a face: bit
/// `i` tells of the cell `i / 3 - 1` rows and `i % 3 - 1` bits from the
/// cell straight in front.
pub open spec fn spec_face_ao(
    refs: &ChunksRefs,
    registry: &BlockRegistry,
    settings: MeshSettings,
    dir: FaceDir,
    axis: int,
    x: int,
    y: int,
    n: int,
) -> u32
    decreases n,
{
    if n <= 0 {
        0u32
    } else {
        let rest = spec_face_ao(refs, registry, settings, dir, axis, x, y, n - 1);
        if grid_cell(
            refs,
            registry,
            settings,
            dir.spec_ao_cell(axis, x, y, (n - 1) / 3 - 1, (n - 1) % 3 - 1),
        ).solid {
            rest | (1u32 << ((n - 1) as u32))
        } else {
            rest
        }
    }
}

/// What faces must share to be part of one quad: the mask of solid cells
/// in front of the face, in the lowest nine bits, and the block of the
/// cell above them.
pub open spec fn spec_face_key(
    refs: &ChunksRefs,
    registry: &BlockRegistry,
    settings: MeshSettings,
    dir: FaceDir,
    axis: int,
    x: int,
    y: int,
) -> u32 {
    let ao = if settings.compute_ao {
        spec_face_ao(refs, registry, settings, dir, axis, x, y, 9)
    } else {
        0u32
    };
    ao | ((grid_cell(refs, registry, settings, dir.spec_cell(axis, x, y)).id as u32) << 9u32)
}

/// The planes of one depth, one plane for each key: the keys, and for each
/// key 32 rows of bits, all in one list.
pub type Planes = (Seq<u32>, Seq<u32>);

/// The planes with the face at row `x` and bit `y` added to the plane of
/// `key`; a key that has no plane yet gets an empty one behind the others.
pub open spec fn spec_plane_add(state: Planes, key: u32, x: int, y: int) -> Planes {
    let keys = if state.0.contains(key) {
        state.0
    } else {
        state.0.push(key)
    };
    let planes = if state.0.contains(key) {
        state.1
    } else {
        state.1 + Seq::new(32, |i: int| 0u32)
    };
    let at = keys.index_of(key) * 32 + x;
    (keys, planes.update(at, planes[at] | (1u32 << (y as u32))))
}

/// The planes after the cell at row `x` and bit `y` has been looked at.
pub open spec fn spec_planes_cell(
    state: Planes,
    refs: &ChunksRefs,
    registry: &BlockRegistry,
    settings: MeshSettings,
    dir: FaceDir,
    axis: int,
    x: int,
    y: int,
) -> Planes {
    if face_visible(refs, registry, settings, dir, axis, x, y) {
        spec_plane_add(state, spec_face_key(refs, registry, settings, dir, axis, x, y), x, y)
    } else {
        state
    }
}

/// The planes after the first `n` cells of row `x` have been looked at,
/// starting from the planes `init`.
pub open spec fn spec_planes_row(
    init: Planes,
    refs: &ChunksRefs,
    registry: &BlockRegistry,
    settings: MeshSettings,
    dir: FaceDir,
    axis: int,
    x: int,
    n: int,
) -> Planes
    decreases n,
{
    if n <= 0 {
        init
    } else {
        spec_planes_cell(
            spec_planes_row(init, refs, registry, settings, dir, axis, x, n - 1),
            refs,
            registry,
            settings,
            dir,
            axis,
            x,
            n - 1,
        )
    }
}

/// The planes after the first `n` rows have been looked at.
pub open spec fn spec_planes_rows(
    refs: &ChunksRefs,
    registry: &BlockRegistry,
    settings: MeshSettings,
    dir: FaceDir,
    axis: int,
    n: int,
) -> Planes
    decreases n,
{
    if n <= 0 {
        (Seq::empty(), Seq::empty())
    } else {
        spec_planes_row(
            spec_planes_rows(refs, registry, settings, dir, axis, n - 1),
            refs,
            registry,
            settings,
            dir,
            axis,
            n - 1,
            settings.lod.spec_size(),
        )
    }
}

/// The planes of the faces in direction `dir` at depth `axis`: the keys in
/// the order in which the faces first show them, rows ascending and bits
/// ascending within a row, and in the plane of each key the faces with
/// that key.
pub open spec fn spec_planes(
    refs: &ChunksRefs,
    registry: &BlockRegistry,
    settings: MeshSettings,
    dir: FaceDir,
    axis: int,
) -> Planes {
    spec_planes_rows(refs, registry, settings, dir, axis, settings.lod.spec_size())
}

/// The mask of solid cells in front of the face of the cell at depth
/// `axis`, row `x` and bit `y`.
fn face_ao(
    grid: &CellGrid,
    Ghost(refs): Ghost<&ChunksRefs>,
    Ghost(registry): Ghost<&BlockRegistry>,
    settings: MeshSettings,
    dir: FaceDir,
    axis: i32,
    x: i32,
    y: i32,
) -> (ao: u32)
    requires
        grid.samples(refs, registry, settings.target, settings.lod),
        0 <= axis < settings.lod.spec_size(),
        0 <= x < settings.lod.spec_size(),
        0 <= y < settings.lod.spec_size(),
    ensures
        ao == spec_face_ao(refs, registry, settings, dir, axis as int, x as int, y as int, 9),
{
    let step: i32 = dir.axis_step();
    let mut ao: u32 = 0;
    let mut n: u32 = 0;
    while n < 9
        invariant
            n <= 9,
            grid.samples(refs, registry, settings.target, settings.lod),
            0 <= axis < settings.lod.spec_size(),
            0 <= x < settings.lod.spec_size(),
            0 <= y < settings.lod.spec_size(),
            step == if dir.spec_is_positive() {
                1int
            } else {
                -1int
            },
            ao == spec_face_ao(
                refs,
                registry,
                settings,
                dir,
                axis as int,
                x as int,
                y as int,
                n as int,
            ),
        decreases 9 - n,
    {
        let row: i32 = (n / 3) as i32 - 1;
        let bit: i32 = (n % 3) as i32 - 1;
        let at = dir.cell(axis + step, x + row, y + bit);
        proof {
            assert(in_grid(settings.lod, (at.x as int, at.y as int, at.z as int)));
            assert((at.x as int, at.y as int, at.z as int) == dir.spec_ao_cell(
                axis as int,
                x as int,
                y as int,
                row as int,
                bit as int,
            ));
        }
        if grid.cell(at.x, at.y, at.z).solid {
            ao = ao | (1u32 << n);
        }
        n += 1;
    }
    ao
}

/// What the face of the cell at depth `axis`, row `x` and bit `y` must
/// share with another to be part of one quad.
fn face_key(
    grid: &CellGrid,
    Ghost(refs): Ghost<&ChunksRefs>,
    Ghost(registry): Ghost<&BlockRegistry>,
    settings: MeshSettings,
    dir: FaceDir,
    axis: i32,
    x: i32,
    y: i32,
) -> (key: u32)
    requires
        grid.samples(refs, registry, settings.target, settings.lod),
        0 <= axis < settings.lod.spec_size(),
        0 <= x < settings.lod.spec_size(),
        0 <= y < settings.lod.spec_size(),
    ensures
        key == spec_face_key(refs, registry, settings, dir, axis as int, x as int, y as int),
{
    let ao: u32 = if settings.compute_ao {
        face_ao(grid, Ghost(refs), Ghost(registry), settings, dir, axis, x, y)
    } else {
        0
    };
    let at = dir.cell(axis, x, y);
    proof {
        assert(in_grid(settings.lod, (at.x as int, at.y as int, at.z as int)));
    }
    let cell = grid.cell(at.x, at.y, at.z);
    ao | ((cell.id as u32) << 9u32)
}

/// The position in `keys` of `key`, if it is there.
fn position(keys: &Vec<u32>, key: u32) -> (found: Option<usize>)
    ensures
        match found {
            Some(k) => k < keys@.len() && keys@[k as int] == key,
            None => !keys@.contains(key),
        },
{
    let mut k: usize = 0;
    while k < keys.len()
        invariant
            k <= keys@.len(),
            forall|j: int| 0 <= j < k ==> keys@[j] != key,
        decreases keys@.len() - k,
    {
        if keys[k] == key {
            return Some(k);
        }
        k += 1;
    }
    None
}

/// Whether planes have 32 rows for each key and no key twice.
pub open spec fn planes_wf(state: Planes) -> bool {
    state.0.no_duplicates() && state.1.len() == 32 * state.0.len()
}

/// Adds the face at row `x` and bit `y` to the plane of `key`.
#[verifier::rlimit(50)]
fn plane_add(keys: &mut Vec<u32>, planes: &mut Vec<u32>, key: u32, x: usize, y: u32)
    requires
        planes_wf((old(keys)@, old(planes)@)),
        old(keys)@.len() < 0x100_0000,
        x < 32,
        y < 32,
    ensures
        (final(keys)@, final(planes)@) == spec_plane_add(
            (old(keys)@, old(planes)@),
            key,
            x as int,
            y as int,
        ),
        planes_wf((final(keys)@, final(planes)@)),
        final(keys)@.len() <= old(keys)@.len() + 1,
{
    let found = position(keys, key);
    let k: usize = match found {
        Some(k) => k,
        None => {
            keys.push(key);
            let mut i: usize = 0;
            while i < 32
                invariant
                    i <= 32,
                    planes@ == old(planes)@ + Seq::new(i as nat, |j: int| 0u32),
                decreases 32 - i,
            {
                planes.push(0);
                assert(planes@ =~= old(planes)@ + Seq::new((i + 1) as nat, |j: int| 0u32));
                i += 1;
            }
            keys.len() - 1
        },
    };
    proof {
        let at = keys@.index_of(key);
        assert(keys@[k as int] == key);
        assert(keys@.no_duplicates()) by {
            if found is None {
                assert forall|a: int, b: int|
                    0 <= a < keys@.len() && 0 <= b < keys@.len() && a != b implies keys@[a]
                    != keys@[b] by {
                    if a < old(keys)@.len() && b < old(keys)@.len() {
                        assert(old(keys)@[a] != old(keys)@[b]);
                    } else if a < old(keys)@.len() {
                        assert(old(keys)@[a] == keys@[a]);
                    } else {
                        assert(old(keys)@[b] == keys@[b]);
                    }
                }
            }
        }
        assert(keys@[at] == key);
        assert(at == k);
    }
    let index: usize = k * 32 + x;
    let row: u32 = planes[index];
    planes[index] = row | (1u32 << y);
}

/// Finds the faces in direction `dir` at depth `axis` and sorts them into
/// planes by their keys.
#[verifier::rlimit(50)]
fn build_planes(
    grid: &CellGrid,
    masks: &Vec<u64>,
    Ghost(refs): Ghost<&ChunksRefs>,
    Ghost(registry): Ghost<&BlockRegistry>,
    settings: MeshSettings,
    dir: FaceDir,
    axis: i32,
) -> (state: (Vec<u32>, Vec<u32>))
    requires
        grid.samples(refs, registry, settings.target, settings.lod),
        masks@.len() == 1024,
        masks_match(masks@, refs, registry, settings, dir, settings.lod.spec_size()),
        0 <= axis < settings.lod.spec_size(),
    ensures
        (state.0@, state.1@) == spec_planes(refs, registry, settings, dir, axis as int),
        planes_wf((state.0@, state.1@)),
        state.0@.len() <= 1024,
{
    let size: i32 = settings.lod.size();
    let mut keys: Vec<u32> = Vec::new();
    let mut planes: Vec<u32> = Vec::new();
    let mut x: i32 = 0;
    while x < size
        invariant
            grid.samples(refs, registry, settings.target, settings.lod),
            masks@.len() == 1024,
            masks_match(masks@, refs, registry, settings, dir, settings.lod.spec_size()),
            size == settings.lod.spec_size(),
            2 <= size <= 32,
            0 <= axis < size,
            0 <= x <= size,
            (keys@, planes@) == spec_planes_rows(
                refs,
                registry,
                settings,
                dir,
                axis as int,
                x as int,
            ),
            planes_wf((keys@, planes@)),
            keys@.len() <= 32 * x,
        decreases size - x,
    {
        let ghost init = (keys@, planes@);
        let mut y: i32 = 0;
        while y < size
            invariant
                grid.samples(refs, registry, settings.target, settings.lod),
                masks@.len() == 1024,
                masks_match(masks@, refs, registry, settings, dir, settings.lod.spec_size()),
                size == settings.lod.spec_size(),
                2 <= size <= 32,
                0 <= axis < size,
                0 <= x < size,
                0 <= y <= size,
                init == spec_planes_rows(refs, registry, settings, dir, axis as int, x as int),
                (keys@, planes@) == spec_planes_row(
                    init,
                    refs,
                    registry,
                    settings,
                    dir,
                    axis as int,
                    x as int,
                    y as int,
                ),
                planes_wf((keys@, planes@)),
                keys@.len() <= 32 * x + y,
            decreases size - y,
        {
            if shows_face(masks, Ghost(refs), Ghost(registry), settings, dir, axis, x, y) {
                let key = face_key(grid, Ghost(refs), Ghost(registry), settings, dir, axis, x, y);
                plane_add(&mut keys, &mut planes, key, x as usize, y as u32);
            }
            y += 1;
        }
        x += 1;
    }
    (keys, planes)
}

/// The vertices of the first `n` of `quads`, faces in direction `dir` at
/// depth `axis` with the key `key`, four for each quad.
pub open spec fn spec_plane_vertices(
    quads: Seq<GreedyQuad>,
    dir: FaceDir,
    axis: u32,
    lod: Lod,
    key: u32,
    n: int,
) -> Seq<u32>
    decreases n,
{
    if n <= 0 {
        Seq::empty()
    } else {
        spec_plane_vertices(quads, dir, axis, lod, key, n - 1) + quads[n - 1].spec_vertices(
            dir,
            axis,
            lod,
            key & 0x1ffu32,
            key >> 9u32,
        )
    }
}

/// The vertices of the planes of the first `n` keys of one depth: each
/// plane is meshed greedily, and its quads give their vertices in order.
pub open spec fn spec_depth_vertices(
    state: Planes,
    dir: FaceDir,
    axis: u32,
    lod: Lod,
    n: int,
) -> Seq<u32>
    decreases n,
{
    if n <= 0 {
        Seq::empty()
    } else {
        let quads = spec_greedy_mesh_binary_plane(
            state.1.subrange(32 * (n - 1), 32 * n),
            lod.spec_size() as u32,
        );
        spec_depth_vertices(state, dir, axis, lod, n - 1) + spec_plane_vertices(
            quads,
            dir,
            axis,
            lod,
            state.0[n - 1],
            quads.len() as int,
        )
    }
}

/// The vertices of the faces in direction `dir` at the first `n` depths.
pub open spec fn spec_dir_vertices(
    refs: &ChunksRefs,
    registry: &BlockRegistry,
    settings: MeshSettings,
    dir: FaceDir,
    n: int,
) -> Seq<u32>
    decreases n,
{
    if n <= 0 {
        Seq::empty()
    } else {
        let state = spec_planes(refs, registry, settings, dir, n - 1);
        spec_dir_vertices(refs, registry, settings, dir, n - 1) + spec_depth_vertices(
            state,
            dir,
            (n - 1) as u32,
            settings.lod,
            state.0.len() as int,
        )
    }
}

/// The vertices of the faces in the first `n` directions, directions in
/// the order of their numbers.
pub open spec fn spec_mesh_vertices(
    refs: &ChunksRefs,
    registry: &BlockRegistry,
    settings: MeshSettings,
    n: int,
) -> Seq<u32>
    decreases n,
{
    if n <= 0 {
        Seq::empty()
    } else {
        spec_mesh_vertices(refs, registry, settings, n - 1) + spec_dir_vertices(
            refs,
            registry,
            settings,
            FaceDir::spec_from_normal_index(n - 1),
            settings.lod.spec_size(),
        )
    }
}

/// The vertices of the mesh of the middle chunk of `refs`: those of the
/// faces of each direction in turn, depth by depth, at each depth plane by
/// plane, and in each plane quad by quad.
pub open spec fn spec_chunk_vertices(
    refs: &ChunksRefs,
    registry: &BlockRegistry,
    settings: MeshSettings,
) -> Seq<u32> {
    spec_mesh_vertices(refs, registry, settings, 6)
}

/// Whether `mesh` is the mesh of the middle chunk of `refs`: no mesh where
/// the chunk shows no face, else the vertices of its faces and the indices
/// of their quads.
pub open spec fn is_chunk_mesh(
    mesh: Option<ChunkMesh>,
    refs: &ChunksRefs,
    registry: &BlockRegistry,
    settings: MeshSettings,
) -> bool {
    let vertices = spec_chunk_vertices(refs, registry, settings);
    match mesh {
        Some(built) => vertices.len() > 0 && built.vertices@ == vertices && built.indices@
            == spec_generate_indices(vertices.len() as int),
        None => vertices.len() == 0,
    }
}

/// The mesh of a chunk is determined by what it is built from: two meshes
/// of the same neighbourhood, registry and settings have the same vertices
/// and the same indices, or there is neither.
pub proof fn lemma_mesh_determined(
    first: Option<ChunkMesh>,
    second: Option<ChunkMesh>,
    refs: &ChunksRefs,
    registry: &BlockRegistry,
    settings: MeshSettings,
)
    requires
        is_chunk_mesh(first, refs, registry, settings),
        is_chunk_mesh(second, refs, registry, settings),
    ensures
        first is Some <==> second is Some,
        first is Some ==> first.unwrap().vertices@ == second.unwrap().vertices@
            && first.unwrap().indices@ == second.unwrap().indices@,
{
}

/// Appends the vertices of `quads` to `vertices`.
#[verifier::rlimit(50)]
fn emit_plane(
    vertices: &mut Vec<u32>,
    quads: &Vec<GreedyQuad>,
    dir: FaceDir,
    axis: u32,
    lod: &Lod,
    key: u32,
)
    requires
        axis < 32,
        forall|i: int| 0 <= i < quads@.len() ==> (#[trigger] quads@[i]).in_plane(),
    ensures
        final(vertices)@ == old(vertices)@ + spec_plane_vertices(
            quads@,
            dir,
            axis,
            *lod,
            key,
            quads@.len() as int,
        ),
        final(vertices)@.len() == old(vertices)@.len() + 4 * quads@.len(),
{
    let ao: u32 = key & 0x1ff;
    let block_type: u32 = key >> 9u32;
    let mut i: usize = 0;
    while i < quads.len()
        invariant
            i <= quads@.len(),
            axis < 32,
            ao == key & 0x1ffu32,
            block_type == key >> 9u32,
            forall|j: int| 0 <= j < quads@.len() ==> (#[trigger] quads@[j]).in_plane(),
            vertices@ == old(vertices)@ + spec_plane_vertices(
                quads@,
                dir,
                axis,
                *lod,
                key,
                i as int,
            ),
            vertices@.len() == old(vertices)@.len() + 4 * i,
        decreases quads@.len() - i,
    {
        let ghost before = vertices@;
        assert(quads@[i as int].in_plane());
        quads[i].append_vertices(vertices, dir, axis, lod, ao, block_type);
        proof {
            let part = quads@[i as int].spec_vertices(dir, axis, *lod, ao, block_type);
            let done = spec_plane_vertices(quads@, dir, axis, *lod, key, i as int);
            assert(part.len() == 4);
            assert(vertices@ == before + part);
            assert(spec_plane_vertices(quads@, dir, axis, *lod, key, i + 1) == done + part);
            assert((old(vertices)@ + done) + part =~= old(vertices)@ + (done + part));
        }
        i += 1;
    }
}

/// The 32 rows of the plane of the `k`-th key.
fn plane_of(planes: &Vec<u32>, k: usize) -> (plane: [u32; 32])
    requires
        32 * (k + 1) <= planes@.len(),
    ensures
        plane@ == planes@.subrange(32 * k as int, 32 * (k + 1) as int),
{
    let mut plane: [u32; 32] = [0u32; 32];
    let len: usize = planes.len();
    let mut i: usize = 0;
    while i < 32
        invariant
            i <= 32,
            len == planes@.len(),
            32 * (k + 1) <= len,
            forall|j: int| 0 <= j < i ==> plane@[j] == planes@[32 * k + j],
        decreases 32 - i,
    {
        plane[i] = planes[32 * k + i];
        i += 1;
    }
    assert(plane@ =~= planes@.subrange(32 * k as int, 32 * (k + 1) as int));
    plane
}

/// Meshes the planes of one depth and appends the vertices of their quads
/// to `vertices`.
#[verifier::rlimit(50)]
fn emit_depth(
    vertices: &mut Vec<u32>,
    keys: &Vec<u32>,
    planes: &Vec<u32>,
    dir: FaceDir,
    axis: u32,
    lod: &Lod,
)
    requires
        axis < 32,
        planes_wf((keys@, planes@)),
        keys@.len() <= 1024,
        old(vertices)@.len() <= 0x3000_0000,
    ensures
        final(vertices)@ == old(vertices)@ + spec_depth_vertices(
            (keys@, planes@),
            dir,
            axis,
            *lod,
            keys@.len() as int,
        ),
        final(vertices)@.len() <= old(vertices)@.len() + 4096 * keys@.len(),
{
    let size: u32 = lod.size() as u32;
    let mut k: usize = 0;
    while k < keys.len()
        invariant
            k <= keys@.len(),
            axis < 32,
            size == lod.spec_size(),
            size <= 32,
            planes_wf((keys@, planes@)),
            keys@.len() <= 1024,
            old(vertices)@.len() <= 0x3000_0000,
            vertices@ == old(vertices)@ + spec_depth_vertices(
                (keys@, planes@),
                dir,
                axis,
                *lod,
                k as int,
            ),
            vertices@.len() <= old(vertices)@.len() + 4096 * k,
        decreases keys@.len() - k,
    {
        let plane = plane_of(planes, k);
        let quads = greedy_mesh_binary_plane(plane, size);
        let ghost before = vertices@;
        emit_plane(vertices, &quads, dir, axis, lod, keys[k]);
        proof {
            let part = spec_plane_vertices(
                quads@,
                dir,
                axis,
                *lod,
                keys@[k as int],
                quads@.len() as int,
            );
            let done = spec_depth_vertices((keys@, planes@), dir, axis, *lod, k as int);
            assert(vertices@ == before + part);
            assert(spec_depth_vertices((keys@, planes@), dir, axis, *lod, k + 1) == done + part);
            assert((old(vertices)@ + done) + part =~= old(vertices)@ + (done + part));
        }
        k += 1;
    }
}

/// Appends the vertices of the faces in direction `dir` to `vertices`.
#[verifier::rlimit(50)]
fn emit_dir(
    vertices: &mut Vec<u32>,
    grid: &CellGrid,
    Ghost(refs): Ghost<&ChunksRefs>,
    Ghost(registry): Ghost<&BlockRegistry>,
    settings: MeshSettings,
    dir: FaceDir,
)
    requires
        grid.samples(refs, registry, settings.target, settings.lod),
        old(vertices)@.len() <= 0x2800_0000,
    ensures
        final(vertices)@ == old(vertices)@ + spec_dir_vertices(
            refs,
            registry,
            settings,
            dir,
            settings.lod.spec_size(),
        ),
        final(vertices)@.len() <= old(vertices)@.len() + 0x0800_0000,
{
    let size: i32 = settings.lod.size();
    let masks = face_masks(grid, Ghost(refs), Ghost(registry), settings, dir);
    let mut axis: i32 = 0;
    while axis < size
        invariant
            grid.samples(refs, registry, settings.target, settings.lod),
            masks@.len() == 1024,
            masks_match(masks@, refs, registry, settings, dir, settings.lod.spec_size()),
            size == settings.lod.spec_size(),
            2 <= size <= 32,
            0 <= axis <= size,
            old(vertices)@.len() <= 0x2800_0000,
            vertices@ == old(vertices)@ + spec_dir_vertices(
                refs,
                registry,
                settings,
                dir,
                axis as int,
            ),
            vertices@.len() <= old(vertices)@.len() + 0x40_0000 * axis,
        decreases size - axis,
    {
        let (keys, planes) = build_planes(
            grid,
            &masks,
            Ghost(refs),
            Ghost(registry),
            settings,
            dir,
            axis,
        );
        let ghost before = vertices@;
        emit_depth(vertices, &keys, &planes, dir, axis as u32, &settings.lod);
        proof {
            let done = spec_dir_vertices(refs, registry, settings, dir, axis as int);
            let depth = spec_depth_vertices(
                (keys@, planes@),
                dir,
                axis as u32,
                settings.lod,
                keys@.len() as int,
            );
            assert(spec_planes(refs, registry, settings, dir, axis as int) == (keys@, planes@));
            assert(spec_dir_vertices(refs, registry, settings, dir, axis + 1) == done + depth);
            assert(before == old(vertices)@ + done);
            assert(vertices@ == before + depth);
            assert((old(vertices)@ + done) + depth =~= old(vertices)@ + (done + depth));
        }
        axis += 1;
    }
}

/// Builds the mesh of the middle chunk of `chunks_refs` from the blocks
/// that have the flags `target`.
///
/// The chunk is divided into cells as `lod` says. A cell that holds a block
/// with the target flags shows a face wherever the cell beside it does not
/// hide it: for each direction, the cells along its axis are gathered into
/// columns of bits and held against their neighbours in the column. The
/// faces of one direction and depth that agree in block and in the solid
/// cells in front of them form a plane of bits, which greedy meshing turns
/// into quads; each quad gives four vertices. Without any face there is no
/// mesh.
#[verifier::rlimit(50)]
pub fn build_chunk_mesh(
    chunks_refs: &ChunksRefs,
    lod: Lod,
    block_registry: &BlockRegistry,
    target: BlockFlags,
    compute_ao: bool,
    cull_against_self_only: bool,
) -> (mesh: Option<ChunkMesh>)
    ensures
        is_chunk_mesh(
            mesh,
            chunks_refs,
            block_registry,
            (MeshSettings { lod, target, compute_ao, cull_against_self_only }),
        ),
{
    let settings = MeshSettings { lod, target, compute_ao, cull_against_self_only };
    let grid = CellGrid::build(chunks_refs, block_registry, target, lod);
    let mut vertices: Vec<u32> = Vec::new();
    let mut n: u32 = 0;
    while n < 6
        invariant
            n <= 6,
            grid.samples(chunks_refs, block_registry, settings.target, settings.lod),
            vertices@ == spec_mesh_vertices(chunks_refs, block_registry, settings, n as int),
            vertices@.len() <= 0x0800_0000 * n,
        decreases 6 - n,
    {
        let dir = FaceDir::from_normal_index(n);
        let ghost before = vertices@;
        emit_dir(&mut vertices, &grid, Ghost(chunks_refs), Ghost(block_registry), settings, dir);
        proof {
            let part = spec_dir_vertices(
                chunks_refs,
                block_registry,
                settings,
                dir,
                settings.lod.spec_size(),
            );
            assert(vertices@ == before + part);
            assert(spec_mesh_vertices(chunks_refs, block_registry, settings, n + 1) == before
                + part);
        }
        n += 1;
    }
    if vertices.len() == 0 {
        None
    } else {
        let indices = generate_indices(vertices.len());
        Some(ChunkMesh { indices, vertices })
    }
}

} // verus!
