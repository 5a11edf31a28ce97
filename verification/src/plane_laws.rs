use crate::cell_grid::MeshSettings;
use crate::chunks_refs::ChunksRefs;
use crate::face_direction::FaceDir;
use crate::greedy_mesher_optimized::{
    face_visible, grid_cell, lemma_run, planes_wf, spec_clear_quad, spec_face_ao, spec_face_key,
    spec_greedy_from,
    spec_greedy_mesh_binary_plane, spec_planes, spec_planes_cell, spec_planes_row,
    spec_planes_rows, spec_quad_width, spec_run_mask, Planes,
};
use crate::quad::{spec_corner_ao, GreedyQuad};
use crate::quad_laws::quad_in_grid;
use crate::voxel::BlockRegistry;
use vstd::prelude::*;
use vstd::std_specs::bits::{
    axiom_u32_trailing_ones, axiom_u32_trailing_zeros, u32_trailing_ones, u32_trailing_zeros,
};

verus! {

/// Whether bit `b` of `row` is set.
pub open spec fn bit(row: u32, b: int) -> bool {
    0 <= b < 32 && (row >> (b as u32)) & 1u32 == 1u32
}

/// Whether the plane `data` has a face at row `row` and bit `b`.
pub open spec fn plane_has(data: Seq<u32>, row: int, b: int) -> bool {
    0 <= row < data.len() && bit(data[row], b)
}

/// Whether `quad` covers the face at row `row` and bit `b`.
pub open spec fn quad_covers(quad: GreedyQuad, row: int, b: int) -> bool {
    quad.x <= row < quad.x + quad.w && quad.y <= b < quad.y + quad.h
}

/// Whether one of `quads` covers the face at row `row` and bit `b`.
pub open spec fn covered(quads: Seq<GreedyQuad>, row: int, b: int) -> bool {
    exists|i: int| 0 <= i < quads.len() && quad_covers(#[trigger] quads[i], row, b)
}

/// Whether no face is covered by two of `quads`.
pub open spec fn disjoint(quads: Seq<GreedyQuad>) -> bool {
    forall|i: int, j: int, row: int, b: int|
        0 <= i < quads.len() && 0 <= j < quads.len() && i != j ==> !(quad_covers(
            #[trigger] quads[i],
            row,
            b,
        ) && #[trigger] quad_covers(quads[j], row, b))
}

/// Whether the plane has 32 rows and no face at or above bit `lod_size`.
pub open spec fn plane_within(data: Seq<u32>, lod_size: u32) -> bool {
    &&& data.len() == 32
    &&& lod_size <= 32
    &&& forall|row: int, b: int| 0 <= row < 32 && lod_size <= b < 32 ==> !plane_has(data, row, b)
}

/// Whether the plane has a face at row `r` and bit `b` that greedy meshing
/// has still to take when it stands at bit `y` of row `row`.
pub open spec fn remaining(data: Seq<u32>, row: int, y: int, r: int, b: int) -> bool {
    plane_has(data, r, b) && (r > row || (r == row && b >= y))
}

/// Bit `b` of a row moved down by `shift` is bit `b + shift` of the row.
proof fn lemma_bit_shifted(row: u32, shift: u32, b: u32)
    requires
        shift + b < 32,
    ensures
        ((row >> shift) >> b) & 1u32 == (row >> ((shift + b) as u32)) & 1u32,
{
    let to: u32 = (shift + b) as u32;
    assert(((row >> shift) >> b) & 1u32 == (row >> to) & 1u32) by (bit_vector)
        requires
            to == shift + b,
            to < 32,
    ;
}

/// The mask of a run of `h` bits from bit `start` has just those bits, and
/// a row without the mask has the bits that it had beside them.
#[verifier::rlimit(50)]
proof fn lemma_mask_bits(row: u32, h: u32, start: u32, b: u32)
    requires
        1 <= h,
        start + h <= 32,
        b < 32,
    ensures
        ({
            let mask = spec_run_mask(h) << start;
            &&& bit(mask, b as int) == (start <= b < start + h)
            &&& bit(row & !mask, b as int) == (bit(row, b as int) && !(start <= b < start + h))
            &&& (start <= b < start + h && (row >> start) & spec_run_mask(h) == spec_run_mask(h))
                ==> bit(row, b as int)
        }),
{
    let h_mask = spec_run_mask(h);
    let mask = h_mask << start;
    if h >= 32 {
        assert(h_mask == !0u32);
        assert(start == 0);
        assert(((!0u32 << 0u32) >> b) & 1u32 == 1u32) by (bit_vector)
            requires
                b < 32,
        ;
        assert(((row & !(!0u32 << 0u32)) >> b) & 1u32 == 0u32) by (bit_vector)
            requires
                b < 32,
        ;
        assert(((row >> 0u32) & !0u32 == !0u32) ==> (row >> b) & 1u32 == 1u32) by (bit_vector)
            requires
                b < 32,
        ;
    } else {
        assert(1u32 << h >= 1) by (bit_vector)
            requires
                h < 32,
        ;
        let low: u32 = ((1u32 << h) - 1) as u32;
        assert(h_mask == low);
        assert((((low << start) >> b) & 1u32 == 1u32) == (start <= b && b < start + h))
            by (bit_vector)
            requires
                1 <= h < 32,
                low == (1u32 << h) - 1,
                start < 32,
                start + h <= 32,
                b < 32,
        ;
        assert((((row & !(low << start)) >> b) & 1u32 == 1u32) == (((row >> b) & 1u32 == 1u32)
            && !(start <= b && b < start + h))) by (bit_vector)
            requires
                1 <= h < 32,
                low == (1u32 << h) - 1,
                start < 32,
                start + h <= 32,
                b < 32,
        ;
        assert((start <= b && b < start + h && (row >> start) & low == low) ==> (row >> b) & 1u32
            == 1u32) by (bit_vector)
            requires
                1 <= h < 32,
                low == (1u32 << h) - 1,
                start < 32,
                start + h <= 32,
                b < 32,
        ;
    }
}

/// A quad grows over just the rows, below `lod_size`, that have the whole
/// run set.
proof fn lemma_width(data: Seq<u32>, row: int, y: u32, h_mask: u32, lod_size: int, w: int)
    requires
        data.len() == 32,
        0 <= row,
        1 <= w,
        lod_size <= 32,
    ensures
        ({
            let width = spec_quad_width(data, row, y, h_mask, lod_size, w);
            &&& w <= width
            &&& width == w || row + width <= lod_size
            &&& forall|k: int|
                w <= k < width ==> row + k < lod_size && (#[trigger] data[row + k] >> y) & h_mask
                    == h_mask
        }),
    decreases lod_size - row - w,
{
    if row + w < lod_size && 0 <= row + w < data.len() && (data[row + w] >> y) & h_mask == h_mask {
        lemma_width(data, row, y, h_mask, lod_size, w + 1);
    }
}

/// Where a row has no set bit from bit `y` on, nothing remains in it.
proof fn lemma_row_done(data: Seq<u32>, lod_size: u32, row: int, y: u32)
    requires
        plane_within(data, lod_size),
        0 <= row < 32,
        forall|b: int| y <= b < lod_size ==> !bit(data[row], b),
    ensures
        forall|r: int, b: int|
            remaining(data, row, y as int, r, b) <==> remaining(data, row + 1, 0, r, b),
{
    assert forall|r: int, b: int|
        remaining(data, row, y as int, r, b) <==> remaining(data, row + 1, 0, r, b) by {
        if r == row && b >= y && plane_has(data, r, b) {
            if b < lod_size {
                assert(!bit(data[row], b));
            } else {
                assert(!plane_has(data, row, b));
            }
        }
    }
}

/// The first set bit of a row from bit `y` on is at `y` plus the number of
/// trailing zeros of the row moved down by `y`; below it no bit is set.
proof fn lemma_first_bit(bits: u32, y: u32)
    requires
        y < 32,
    ensures
        forall|b: int|
            y <= b < y + u32_trailing_zeros(bits >> y) && b < 32 ==> !bit(bits, b),
{
    let shifted = bits >> y;
    axiom_u32_trailing_zeros(shifted);
    assert forall|b: int| y <= b < y + u32_trailing_zeros(shifted) && b < 32 implies !bit(
        bits,
        b,
    ) by {
        let j: u32 = (b - y) as u32;
        assert((shifted >> j) & 1u32 == 0u32);
        lemma_bit_shifted(bits, y, j);
    }
}

/// The run of set bits that starts at bit `start` of a row is as long as
/// the number of trailing ones of the row moved down by `start`.
proof fn lemma_run_bits(bits: u32, start: u32)
    requires
        start < 32,
    ensures
        forall|b: int|
            start <= b < start + u32_trailing_ones(bits >> start) && b < 32 ==> bit(bits, b),
{
    let shifted = bits >> start;
    axiom_u32_trailing_ones(shifted);
    assert forall|b: int| start <= b < start + u32_trailing_ones(shifted) && b < 32 implies bit(
        bits,
        b,
    ) by {
        let j: u32 = (b - start) as u32;
        assert((shifted >> j) & 1u32 == 1u32);
        lemma_bit_shifted(bits, start, j);
    }
}

/// From bit `y` of row `row` on, greedy meshing covers each face that
/// remains in the plane, covers nothing else, and covers no face twice.
#[verifier::rlimit(50)]
proof fn lemma_tiling_from(data: Seq<u32>, lod_size: u32, row: int, y: u32)
    requires
        plane_within(data, lod_size),
        0 <= row <= 32,
    ensures
        forall|r: int, b: int|
            covered(spec_greedy_from(data, lod_size, row, y), r, b) <==> remaining(
                data,
                row,
                y as int,
                r,
                b,
            ),
        disjoint(spec_greedy_from(data, lod_size, row, y)),
        forall|i: int|
            0 <= i < spec_greedy_from(data, lod_size, row, y).len() ==> 1 <= (
            #[trigger] spec_greedy_from(data, lod_size, row, y)[i]).w && 1 <= spec_greedy_from(
                data,
                lod_size,
                row,
                y,
            )[i].h,
    decreases 32 - row,
        (if y < 32 {
            32 - y
        } else {
            0
        }),
{
    let quads = spec_greedy_from(data, lod_size, row, y);
    if row >= 32 {
        assert(quads =~= Seq::<GreedyQuad>::empty());
    } else if y >= lod_size || y >= 32 {
        lemma_tiling_from(data, lod_size, row + 1, 0);
        assert forall|b: int| y <= b < lod_size implies !bit(data[row], b) by {}
        lemma_row_done(data, lod_size, row, y);
    } else {
        let start = (y + u32_trailing_zeros(data[row] >> y)) as u32;
        axiom_u32_trailing_zeros(data[row] >> y);
        lemma_first_bit(data[row], y);
        if start >= lod_size || start >= 32 {
            lemma_tiling_from(data, lod_size, row + 1, 0);
            assert forall|b: int| y <= b < lod_size implies !bit(data[row], b) by {
                assert(b < start);
            }
            lemma_row_done(data, lod_size, row, y);
        } else {
            let h = u32_trailing_ones(data[row] >> start);
            lemma_run(data[row], y, start);
            lemma_run_bits(data[row], start);
            let h_mask = spec_run_mask(h);
            let mask = h_mask << start;
            let w = spec_quad_width(data, row, start, h_mask, lod_size as int, 1);
            lemma_width(data, row, start, h_mask, lod_size as int, 1);
            let quad = GreedyQuad { x: row as u32, y: start, w: w as u32, h };
            let cleared = spec_clear_quad(data, row, w, mask);
            let rest = spec_greedy_from(cleared, lod_size, row, (start + h) as u32);
            assert(quads == seq![quad] + rest);
            assert forall|r: int, b: int| 0 <= r < 32 && 0 <= b < 32 implies plane_has(
                cleared,
                r,
                b,
            ) == (plane_has(data, r, b) && !(row < r < row + w && start <= b < start + h)) by {
                lemma_mask_bits(data[r], h, start, b as u32);
            }
            assert(plane_within(cleared, lod_size));
            lemma_tiling_from(cleared, lod_size, row, (start + h) as u32);
            assert forall|r: int, b: int| quad_covers(quad, r, b) implies plane_has(
                data,
                r,
                b,
            ) by {
                if r == row {
                    assert(bit(data[row], b));
                } else {
                    let k = r - row;
                    assert((data[row + k] >> start) & h_mask == h_mask);
                    lemma_mask_bits(data[r], h, start, b as u32);
                }
            }
            assert forall|r: int, b: int| covered(quads, r, b) <==> remaining(
                data,
                row,
                y as int,
                r,
                b,
            ) by {
                if covered(quads, r, b) {
                    let i = choose|i: int|
                        0 <= i < quads.len() && quad_covers(#[trigger] quads[i], r, b);
                    if i == 0 {
                        assert(quad_covers(quad, r, b));
                    } else {
                        assert(quads[i] == rest[i - 1]);
                        assert(covered(rest, r, b));
                        assert(remaining(cleared, row, start + h, r, b));
                    }
                }
                if remaining(data, row, y as int, r, b) {
                    if quad_covers(quad, r, b) {
                        assert(quads[0] == quad);
                    } else {
                        if r == row {
                            assert(!(y <= b < start));
                        }
                        assert(remaining(cleared, row, start + h, r, b));
                        assert(covered(rest, r, b));
                        let i = choose|i: int|
                            0 <= i < rest.len() && quad_covers(#[trigger] rest[i], r, b);
                        assert(quads[i + 1] == rest[i]);
                    }
                }
            }
            assert forall|i: int| 0 <= i < quads.len() implies 1 <= (#[trigger] quads[i]).w && 1
                <= quads[i].h by {
                if i > 0 {
                    assert(quads[i] == rest[i - 1]);
                }
            }
            assert forall|i: int, j: int, r: int, b: int|
                0 <= i < quads.len() && 0 <= j < quads.len() && i != j implies !(quad_covers(
                #[trigger] quads[i],
                r,
                b,
            ) && #[trigger] quad_covers(quads[j], r, b)) by {
                if i > 0 {
                    assert(quads[i] == rest[i - 1]);
                }
                if j > 0 {
                    assert(quads[j] == rest[j - 1]);
                }
                if i == 0 && quad_covers(quads[j], r, b) {
                    assert(covered(rest, r, b));
                    assert(remaining(cleared, row, start + h, r, b));
                }
                if j == 0 && quad_covers(quads[i], r, b) {
                    assert(covered(rest, r, b));
                    assert(remaining(cleared, row, start + h, r, b));
                }
            }
        }
    }
}

/// Greedy meshing tiles a plane: where no face lies at or above bit
/// `lod_size`, each face of the plane is covered by one quad, no face by two
/// and nothing but faces by any.
pub proof fn lemma_quads_tile_plane(data: Seq<u32>, lod_size: u32)
    requires
        plane_within(data, lod_size),
    ensures
        forall|row: int, b: int|
            covered(spec_greedy_mesh_binary_plane(data, lod_size), row, b) <==> plane_has(
                data,
                row,
                b,
            ),
        disjoint(spec_greedy_mesh_binary_plane(data, lod_size)),
        forall|i: int|
            0 <= i < spec_greedy_mesh_binary_plane(data, lod_size).len() ==> 1 <= (
            #[trigger] spec_greedy_mesh_binary_plane(data, lod_size)[i]).w && 1
                <= spec_greedy_mesh_binary_plane(data, lod_size)[i].h,
{
    lemma_tiling_from(data, lod_size, 0, 0);
    assert forall|row: int, b: int|
        covered(spec_greedy_mesh_binary_plane(data, lod_size), row, b) <==> plane_has(
            data,
            row,
            b,
        ) by {
        assert(remaining(data, 0, 0, row, b) == plane_has(data, row, b));
    }
}

/// Whether the face at row `x` and bit `b` has been looked at when the
/// planes of a depth are built and building stands at bit `y_done` of row
/// `x_done`.
pub open spec fn looked_at(size: int, x_done: int, y_done: int, x: int, b: int) -> bool {
    0 <= x && 0 <= b < size && (x < x_done || (x == x_done && b < y_done))
}

/// Whether the planes `state` hold just the faces in direction `dir` at
/// depth `axis` that have been looked at, each in the plane of its key.
pub open spec fn planes_match(
    state: Planes,
    refs: &ChunksRefs,
    registry: &BlockRegistry,
    settings: MeshSettings,
    dir: FaceDir,
    axis: int,
    x_done: int,
    y_done: int,
) -> bool {
    let size = settings.lod.spec_size();
    &&& planes_wf(state)
    &&& forall|k: int, x: int, b: int|
        0 <= k < state.0.len() && 0 <= x < 32 && 0 <= b < 32 ==> (#[trigger] bit(
            state.1[k * 32 + x],
            b,
        ) <==> looked_at(size, x_done, y_done, x, b) && face_visible(
            refs,
            registry,
            settings,
            dir,
            axis,
            x,
            b,
        ) && spec_face_key(refs, registry, settings, dir, axis, x, b) == state.0[k])
    &&& forall|x: int, b: int|
        looked_at(size, x_done, y_done, x, b) && #[trigger] face_visible(
            refs,
            registry,
            settings,
            dir,
            axis,
            x,
            b,
        ) ==> state.0.contains(spec_face_key(refs, registry, settings, dir, axis, x, b))
}

/// Setting bit `y` of a row sets that bit and leaves the others; the empty
/// row has no bit.
proof fn lemma_set_bit(row: u32, y: u32, b: u32)
    requires
        y < 32,
        b < 32,
    ensures
        bit(row | (1u32 << y), b as int) == (bit(row, b as int) || b == y),
        !bit(0u32, b as int),
{
    assert((((row | (1u32 << y)) >> b) & 1u32 == 1u32) == (((row >> b) & 1u32 == 1u32) || b == y))
        by (bit_vector)
        requires
            y < 32,
            b < 32,
    ;
    assert((0u32 >> b) & 1u32 == 0u32) by (bit_vector);
}

/// Looking at one more face keeps the planes in step with the faces.
#[verifier::rlimit(50)]
proof fn lemma_planes_cell(
    state: Planes,
    refs: &ChunksRefs,
    registry: &BlockRegistry,
    settings: MeshSettings,
    dir: FaceDir,
    axis: int,
    x: int,
    y: int,
)
    requires
        0 <= x < settings.lod.spec_size() <= 32,
        0 <= y < settings.lod.spec_size(),
        planes_match(state, refs, registry, settings, dir, axis, x, y),
    ensures
        planes_match(
            spec_planes_cell(state, refs, registry, settings, dir, axis, x, y),
            refs,
            registry,
            settings,
            dir,
            axis,
            x,
            y + 1,
        ),
{
    let size = settings.lod.spec_size();
    let after = spec_planes_cell(state, refs, registry, settings, dir, axis, x, y);
    if face_visible(refs, registry, settings, dir, axis, x, y) {
        let key = spec_face_key(refs, registry, settings, dir, axis, x, y);
        let known = state.0.contains(key);
        let at = after.0.index_of(key);
        if known {
            assert(after.0 == state.0);
        } else {
            assert(after.0 == state.0.push(key));
            assert(after.0[state.0.len() as int] == key);
            assert forall|a: int, c: int|
                0 <= a < after.0.len() && 0 <= c < after.0.len() && a != c implies after.0[a]
                != after.0[c] by {
                if a < state.0.len() && c < state.0.len() {
                    assert(state.0[a] != state.0[c]);
                } else if a < state.0.len() {
                    assert(state.0[a] == after.0[a]);
                } else {
                    assert(state.0[c] == after.0[c]);
                }
            }
        }
        assert(after.0.contains(key));
        assert(0 <= at < after.0.len() && after.0[at] == key);
        let widened = if known {
            state.1
        } else {
            state.1 + Seq::new(32, |i: int| 0u32)
        };
        assert(after.1 == widened.update(at * 32 + x, widened[at * 32 + x] | (1u32 << (y as u32))));
        assert(planes_wf(after));
        assert forall|k: int, x2: int, b: int|
            0 <= k < after.0.len() && 0 <= x2 < 32 && 0 <= b < 32 implies (#[trigger] bit(
            after.1[k * 32 + x2],
            b,
        ) <==> looked_at(size, x, y + 1, x2, b) && face_visible(
            refs,
            registry,
            settings,
            dir,
            axis,
            x2,
            b,
        ) && spec_face_key(refs, registry, settings, dir, axis, x2, b) == after.0[k]) by {
            let before: u32 = widened[k * 32 + x2];
            lemma_set_bit(before, y as u32, b as u32);
            if k < state.0.len() {
                assert(before == state.1[k * 32 + x2]);
                assert(bit(state.1[k * 32 + x2], b) <==> looked_at(size, x, y, x2, b)
                    && face_visible(refs, registry, settings, dir, axis, x2, b) && spec_face_key(
                    refs,
                    registry,
                    settings,
                    dir,
                    axis,
                    x2,
                    b,
                ) == state.0[k]);
                assert(after.0[k] == state.0[k]);
            } else {
                assert(before == 0u32);
                assert(k == at);
            }
            if k == at && x2 == x {
                assert(after.1[k * 32 + x2] == before | (1u32 << (y as u32)));
                if !known && looked_at(size, x, y, x2, b) && face_visible(
                    refs,
                    registry,
                    settings,
                    dir,
                    axis,
                    x2,
                    b,
                ) {
                    assert(state.0.contains(
                        spec_face_key(refs, registry, settings, dir, axis, x2, b),
                    ));
                }
            } else {
                assert(after.1[k * 32 + x2] == before);
                if after.0[k] == key && k != at {
                    assert(after.0[at] == after.0[k]);
                }
                if !known && k == at && looked_at(size, x, y, x2, b) && face_visible(
                    refs,
                    registry,
                    settings,
                    dir,
                    axis,
                    x2,
                    b,
                ) {
                    assert(state.0.contains(
                        spec_face_key(refs, registry, settings, dir, axis, x2, b),
                    ));
                }
            }
        }
        assert forall|x2: int, b: int|
            looked_at(size, x, y + 1, x2, b) && #[trigger] face_visible(
                refs,
                registry,
                settings,
                dir,
                axis,
                x2,
                b,
            ) implies after.0.contains(
            spec_face_key(refs, registry, settings, dir, axis, x2, b),
        ) by {
            if x2 == x && b == y {
            } else {
                assert(looked_at(size, x, y, x2, b));
                let other = spec_face_key(refs, registry, settings, dir, axis, x2, b);
                assert(state.0.contains(other));
                let j = choose|j: int| 0 <= j < state.0.len() && state.0[j] == other;
                assert(after.0[j] == other);
            }
        }
    } else {
        assert forall|k: int, x2: int, b: int|
            0 <= k < after.0.len() && 0 <= x2 < 32 && 0 <= b < 32 implies (#[trigger] bit(
            after.1[k * 32 + x2],
            b,
        ) <==> looked_at(size, x, y + 1, x2, b) && face_visible(
            refs,
            registry,
            settings,
            dir,
            axis,
            x2,
            b,
        ) && spec_face_key(refs, registry, settings, dir, axis, x2, b) == after.0[k]) by {
            assert(bit(state.1[k * 32 + x2], b) <==> looked_at(size, x, y, x2, b) && face_visible(
                refs,
                registry,
                settings,
                dir,
                axis,
                x2,
                b,
            ) && spec_face_key(refs, registry, settings, dir, axis, x2, b) == state.0[k]);
        }
        assert forall|x2: int, b: int|
            looked_at(size, x, y + 1, x2, b) && #[trigger] face_visible(
                refs,
                registry,
                settings,
                dir,
                axis,
                x2,
                b,
            ) implies after.0.contains(
            spec_face_key(refs, registry, settings, dir, axis, x2, b),
        ) by {
            assert(looked_at(size, x, y, x2, b));
        }
    }
}

/// Looking at the first `n` faces of a row keeps the planes in step with
/// the faces.
proof fn lemma_planes_row(
    init: Planes,
    refs: &ChunksRefs,
    registry: &BlockRegistry,
    settings: MeshSettings,
    dir: FaceDir,
    axis: int,
    x: int,
    n: int,
)
    requires
        0 <= x < settings.lod.spec_size() <= 32,
        0 <= n <= settings.lod.spec_size(),
        planes_match(init, refs, registry, settings, dir, axis, x, 0),
    ensures
        planes_match(
            spec_planes_row(init, refs, registry, settings, dir, axis, x, n),
            refs,
            registry,
            settings,
            dir,
            axis,
            x,
            n,
        ),
    decreases n,
{
    if n > 0 {
        lemma_planes_row(init, refs, registry, settings, dir, axis, x, n - 1);
        lemma_planes_cell(
            spec_planes_row(init, refs, registry, settings, dir, axis, x, n - 1),
            refs,
            registry,
            settings,
            dir,
            axis,
            x,
            n - 1,
        );
    }
}

/// Looking at the first `n` rows keeps the planes in step with the faces.
#[verifier::rlimit(50)]
proof fn lemma_planes_rows(
    refs: &ChunksRefs,
    registry: &BlockRegistry,
    settings: MeshSettings,
    dir: FaceDir,
    axis: int,
    n: int,
)
    requires
        0 <= n <= settings.lod.spec_size() <= 32,
    ensures
        planes_match(
            spec_planes_rows(refs, registry, settings, dir, axis, n),
            refs,
            registry,
            settings,
            dir,
            axis,
            n,
            0,
        ),
    decreases n,
{
    let size = settings.lod.spec_size();
    if n > 0 {
        lemma_planes_rows(refs, registry, settings, dir, axis, n - 1);
        let init = spec_planes_rows(refs, registry, settings, dir, axis, n - 1);
        lemma_planes_row(init, refs, registry, settings, dir, axis, n - 1, size);
        let done = spec_planes_row(init, refs, registry, settings, dir, axis, n - 1, size);
        assert forall|x: int, b: int|
            looked_at(size, n - 1, size, x, b) == looked_at(size, n, 0, x, b) by {}
        assert(planes_match(done, refs, registry, settings, dir, axis, n, 0)) by {
            assert forall|k: int, x: int, b: int|
                0 <= k < done.0.len() && 0 <= x < 32 && 0 <= b < 32 implies (#[trigger] bit(
                done.1[k * 32 + x],
                b,
            ) <==> looked_at(size, n, 0, x, b) && face_visible(
                refs,
                registry,
                settings,
                dir,
                axis,
                x,
                b,
            ) && spec_face_key(refs, registry, settings, dir, axis, x, b) == done.0[k]) by {
                assert(looked_at(size, n - 1, size, x, b) == looked_at(size, n, 0, x, b));
            }
            assert forall|x: int, b: int|
                looked_at(size, n, 0, x, b) && #[trigger] face_visible(
                    refs,
                    registry,
                    settings,
                    dir,
                    axis,
                    x,
                    b,
                ) implies done.0.contains(
                spec_face_key(refs, registry, settings, dir, axis, x, b),
            ) by {
                assert(looked_at(size, n - 1, size, x, b));
            }
        }
    } else {
        let none = spec_planes_rows(refs, registry, settings, dir, axis, 0);
        assert(none.0 =~= Seq::<u32>::empty());
    }
}

/// Whether the cell at row `x` and bit `b` of the depth `axis` shows a face
/// in direction `dir` with the key `key`.
pub open spec fn face_with_key(
    refs: &ChunksRefs,
    registry: &BlockRegistry,
    settings: MeshSettings,
    dir: FaceDir,
    axis: int,
    key: u32,
    x: int,
    b: int,
) -> bool {
    &&& 0 <= x < settings.lod.spec_size()
    &&& 0 <= b < settings.lod.spec_size()
    &&& face_visible(refs, registry, settings, dir, axis, x, b)
    &&& spec_face_key(refs, registry, settings, dir, axis, x, b) == key
}

/// The quads of one plane tile the faces of its key: of the faces in one
/// direction at one depth, each face with the key of the plane is covered by
/// one of the quads that the plane gives, no face by two of them, and the
/// quads cover nothing else. Each face has a plane: its key is among the
/// keys.
#[verifier::rlimit(50)]
pub proof fn lemma_faces_tiled(
    refs: &ChunksRefs,
    registry: &BlockRegistry,
    settings: MeshSettings,
    dir: FaceDir,
    axis: int,
    k: int,
)
    requires
        0 <= k < spec_planes(refs, registry, settings, dir, axis).0.len(),
    ensures
        ({
            let state = spec_planes(refs, registry, settings, dir, axis);
            let quads = spec_greedy_mesh_binary_plane(
                state.1.subrange(32 * k, 32 * (k + 1)),
                settings.lod.spec_size() as u32,
            );
            &&& state.0.no_duplicates()
            &&& forall|x: int, b: int|
                covered(quads, x, b) <==> face_with_key(
                    refs,
                    registry,
                    settings,
                    dir,
                    axis,
                    state.0[k],
                    x,
                    b,
                )
            &&& disjoint(quads)
            &&& forall|i: int|
                0 <= i < quads.len() && 0 <= axis < settings.lod.spec_size() ==> quad_in_grid(
                    #[trigger] quads[i],
                    axis as u32,
                    settings.lod,
                )
            &&& forall|x: int, b: int|
                0 <= x < settings.lod.spec_size() && 0 <= b < settings.lod.spec_size()
                    && #[trigger] face_visible(refs, registry, settings, dir, axis, x, b)
                    ==> state.0.contains(spec_face_key(refs, registry, settings, dir, axis, x, b))
        }),
{
    let size = settings.lod.spec_size();
    let state = spec_planes(refs, registry, settings, dir, axis);
    lemma_planes_rows(refs, registry, settings, dir, axis, size);
    let plane = state.1.subrange(32 * k, 32 * (k + 1));
    assert forall|x: int, b: int| 0 <= x < 32 && 0 <= b < 32 implies plane_has(plane, x, b)
        == face_with_key(refs, registry, settings, dir, axis, state.0[k], x, b) by {
        assert(plane[x] == state.1[k * 32 + x]);
        assert(bit(state.1[k * 32 + x], b) <==> looked_at(size, size, 0, x, b) && face_visible(
            refs,
            registry,
            settings,
            dir,
            axis,
            x,
            b,
        ) && spec_face_key(refs, registry, settings, dir, axis, x, b) == state.0[k]);
    }
    assert(plane_within(plane, size as u32));
    lemma_quads_tile_plane(plane, size as u32);
    let quads = spec_greedy_mesh_binary_plane(plane, size as u32);
    assert forall|x: int, b: int|
        covered(quads, x, b) <==> face_with_key(
            refs,
            registry,
            settings,
            dir,
            axis,
            state.0[k],
            x,
            b,
        ) by {
        assert(covered(quads, x, b) <==> plane_has(plane, x, b));
    }
    assert forall|x: int, b: int|
        0 <= x < size && 0 <= b < size && #[trigger] face_visible(
            refs,
            registry,
            settings,
            dir,
            axis,
            x,
            b,
        ) implies state.0.contains(spec_face_key(refs, registry, settings, dir, axis, x, b)) by {
        assert(looked_at(size, size, 0, x, b));
    }
    assert forall|i: int| 0 <= i < quads.len() && 0 <= axis < size implies quad_in_grid(
        #[trigger] quads[i],
        axis as u32,
        settings.lod,
    ) by {
        let quad = quads[i];
        let x = quad.x + quad.w - 1;
        let b = quad.y + quad.h - 1;
        assert(quad_covers(quad, x, b));
        assert(covered(quads, x, b));
        assert(face_with_key(refs, registry, settings, dir, axis, state.0[k], x, b));
    }
}

/// The mask of the cells in front of a face has bit `i` set just where
/// the cell `i / 3 - 1` rows and `i % 3 - 1` bits from the cell straight in
/// front is solid; it has nine bits.
pub proof fn lemma_face_ao(
    refs: &ChunksRefs,
    registry: &BlockRegistry,
    settings: MeshSettings,
    dir: FaceDir,
    axis: int,
    x: int,
    y: int,
    n: int,
)
    requires
        0 <= n <= 9,
    ensures
        forall|i: int|
            0 <= i < 32 ==> (#[trigger] bit(
                spec_face_ao(refs, registry, settings, dir, axis, x, y, n),
                i,
            ) <==> i < n && grid_cell(
                refs,
                registry,
                settings,
                dir.spec_ao_cell(axis, x, y, i / 3 - 1, i % 3 - 1),
            ).solid),
        spec_face_ao(refs, registry, settings, dir, axis, x, y, n) < 512,
    decreases n,
{
    let now = spec_face_ao(refs, registry, settings, dir, axis, x, y, n);
    if n > 0 {
        lemma_face_ao(refs, registry, settings, dir, axis, x, y, n - 1);
        let rest = spec_face_ao(refs, registry, settings, dir, axis, x, y, n - 1);
        let at: u32 = (n - 1) as u32;
        assert((rest | (1u32 << at)) < 512) by (bit_vector)
            requires
                rest < 512,
                at < 9,
        ;
        assert forall|i: int| 0 <= i < 32 implies (#[trigger] bit(now, i) <==> i < n && grid_cell(
            refs,
            registry,
            settings,
            dir.spec_ao_cell(axis, x, y, i / 3 - 1, i % 3 - 1),
        ).solid) by {
            lemma_set_bit(rest, at, i as u32);
            assert(bit(rest, i) <==> i < n - 1 && grid_cell(
                refs,
                registry,
                settings,
                dir.spec_ao_cell(axis, x, y, i / 3 - 1, i % 3 - 1),
            ).solid);
        }
    } else {
        assert forall|i: int| 0 <= i < 32 implies !#[trigger] bit(now, i) by {
            lemma_set_bit(0u32, 0u32, i as u32);
        }
    }
}

/// A key holds the mask of the cells in front of its faces in its lowest
/// nine bits and the block of its faces above them: what the vertices of a
/// quad are made of.
pub proof fn lemma_key_parts(ao: u32, id: u16)
    requires
        ao < 512,
    ensures
        (ao | ((id as u32) << 9u32)) & 0x1ffu32 == ao,
        (ao | ((id as u32) << 9u32)) >> 9u32 == id as u32,
{
    let wide: u32 = id as u32;
    assert((ao | (wide << 9u32)) & 0x1ffu32 == ao && (ao | (wide << 9u32)) >> 9u32 == wide)
        by (bit_vector)
        requires
            ao < 512,
            wide < 0x1_0000,
    ;
}

/// A corner is as dark as the number of the three cells beside it that are
/// solid.
pub proof fn lemma_corner_darkness(ao: u32, first: u32, second: u32, third: u32)
    requires
        first < 32,
        second < 32,
        third < 32,
    ensures
        spec_corner_ao(ao, first, second, third) == (if bit(ao, first as int) {
            1int
        } else {
            0int
        }) + (if bit(ao, second as int) {
            1int
        } else {
            0int
        }) + (if bit(ao, third as int) {
            1int
        } else {
            0int
        }),
{
    assert(((ao >> first) & 1u32) <= 1 && ((ao >> second) & 1u32) <= 1 && ((ao >> third) & 1u32)
        <= 1) by (bit_vector);
}

} // verus!
