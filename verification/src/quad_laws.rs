use crate::face_direction::FaceDir;
use crate::lod::Lod;
use crate::math::IVec3;
use crate::quad::{spec_corner_ao, spec_quad_vertex, GreedyQuad};
use crate::utils::{
    lemma_vertex_fields, spec_get_pos_from_vertex_u32, spec_vertex_ao, spec_vertex_block_type,
    spec_vertex_normal,
};
use vstd::prelude::*;

verus! {

/// The unit vector along which `dir` looks.
pub open spec fn outward(dir: FaceDir) -> (int, int, int) {
    match dir {
        FaceDir::Right => (1, 0, 0),
        FaceDir::Left => (-1, 0, 0),
        FaceDir::Up => (0, 1, 0),
        FaceDir::Down => (0, -1, 0),
        FaceDir::Back => (0, 0, 1),
        FaceDir::Forward => (0, 0, -1),
    }
}

/// The cross product of two vectors.
pub open spec fn cross(a: IVec3, b: IVec3) -> (int, int, int) {
    (a.y * b.z - a.z * b.y, a.z * b.x - a.x * b.z, a.x * b.y - a.y * b.x)
}

/// Twice the area of the polygon with the four corners `p`, as a vector:
/// it points to the side from which the corners run counter-clockwise.
pub open spec fn area_vector(p: Seq<IVec3>) -> (int, int, int) {
    let a = cross(p[0], p[1]);
    let b = cross(p[1], p[2]);
    let c = cross(p[2], p[3]);
    let d = cross(p[3], p[0]);
    (a.0 + b.0 + c.0 + d.0, a.1 + b.1 + c.1 + d.1, a.2 + b.2 + c.2 + d.2)
}

/// The positions that a list of packed vertices holds.
pub open spec fn positions(vertices: Seq<u32>) -> Seq<IVec3> {
    vertices.map_values(|v: u32| spec_get_pos_from_vertex_u32(v))
}

/// Whether `quad` lies within the cells of a plane at level of detail
/// `lod`, at a depth `axis` within them.
pub open spec fn quad_in_grid(quad: GreedyQuad, axis: u32, lod: Lod) -> bool {
    &&& axis < lod.spec_size()
    &&& 1 <= quad.w
    &&& 1 <= quad.h
    &&& quad.x + quad.w <= lod.spec_size()
    &&& quad.y + quad.h <= lod.spec_size()
}

/// The corner of the vertex grid at depth `axis`, row `x` and bit `y`, in
/// voxels.
pub open spec fn corner_pos(dir: FaceDir, axis: int, x: int, y: int, jump: int) -> IVec3 {
    let corner = dir.spec_world_to_sample(axis, x, y);
    IVec3 {
        x: (corner.0 * jump) as i32,
        y: (corner.1 * jump) as i32,
        z: (corner.2 * jump) as i32,
    }
}

/// A corner of a quad within the grid is packed whole: the vertex holds
/// its position, the occlusion and the direction given, and the low byte of
/// the block.
proof fn lemma_corner(
    dir: FaceDir,
    axis: int,
    x: int,
    y: int,
    lod: Lod,
    ao: u32,
    block_type: u32,
)
    requires
        0 <= axis < lod.spec_size(),
        0 <= x <= lod.spec_size(),
        0 <= y <= lod.spec_size(),
        ao <= 3,
    ensures
        ({
            let jump = lod.spec_jump_index();
            let vertex = spec_quad_vertex(dir, axis, x, y, jump, ao, block_type);
            let corner = dir.spec_world_to_sample(axis, x, y);
            &&& spec_get_pos_from_vertex_u32(vertex) == corner_pos(dir, axis, x, y, jump)
            &&& corner_pos(dir, axis, x, y, jump).x == corner.0 * jump
            &&& corner_pos(dir, axis, x, y, jump).y == corner.1 * jump
            &&& corner_pos(dir, axis, x, y, jump).z == corner.2 * jump
            &&& spec_vertex_ao(vertex) == ao
            &&& spec_vertex_normal(vertex) == dir.spec_normal_index()
            &&& spec_vertex_block_type(vertex) == block_type & 0xffu32
        }),
{
    let jump = lod.spec_jump_index();
    let size = lod.spec_size();
    let corner = dir.spec_world_to_sample(axis, x, y);
    assert(jump * size == 32 && 1 <= jump <= 16);
    assert(0 <= corner.0 <= size && 0 <= corner.1 <= size && 0 <= corner.2 <= size);
    assert(0 <= corner.0 * jump <= 32 && 0 <= corner.1 * jump <= 32 && 0 <= corner.2 * jump <= 32)
        by (nonlinear_arith)
        requires
            0 <= corner.0 <= size,
            0 <= corner.1 <= size,
            0 <= corner.2 <= size,
            jump * size == 32,
            1 <= jump,
    ;
    lemma_vertex_fields(
        corner_pos(dir, axis, x, y, jump),
        ao,
        dir.spec_normal_index(),
        block_type,
    );
}

/// The darkness of a corner is at most 3.
proof fn lemma_corner_ao(ao: u32, first: u32, second: u32, third: u32)
    requires
        first < 32,
        second < 32,
        third < 32,
    ensures
        spec_corner_ao(ao, first, second, third) <= 3,
{
    assert(((ao >> first) & 1u32) <= 1 && ((ao >> second) & 1u32) <= 1 && ((ao >> third) & 1u32)
        <= 1) by (bit_vector);
}

/// The area vector of four corners that all lie at depth `d` along one
/// axis, with the coordinates `u` and `v` along the two others: the part
/// along that axis is twice the area that the corners enclose in the order
/// in which `u` comes before `v`, and the other parts cancel.
#[verifier::rlimit(50)]
proof fn lemma_planar(
    u1: int,
    v1: int,
    u2: int,
    v2: int,
    u3: int,
    v3: int,
    u4: int,
    v4: int,
    d: int,
)
    ensures
        (u1 * v2 - v1 * u2) + (u2 * v3 - v2 * u3) + (u3 * v4 - v3 * u4) + (u4 * v1 - v4 * u1) == (
        u1 - u3) * (v2 - v4) - (u2 - u4) * (v1 - v3),
        (d * v2 - v1 * d) + (d * v3 - v2 * d) + (d * v4 - v3 * d) + (d * v1 - v4 * d) == 0,
        (u1 * d - d * u2) + (u2 * d - d * u3) + (u3 * d - d * u4) + (u4 * d - d * u1) == 0,
{
    assert((u1 * v2 - v1 * u2) + (u2 * v3 - v2 * u3) + (u3 * v4 - v3 * u4) + (u4 * v1 - v4 * u1)
        == (u1 - u3) * (v2 - v4) - (u2 - u4) * (v1 - v3)) by (nonlinear_arith);
    assert((d * v2 - v1 * d) + (d * v3 - v2 * d) + (d * v4 - v3 * d) + (d * v1 - v4 * d) == 0)
        by (nonlinear_arith);
    assert((u1 * d - d * u2) + (u2 * d - d * u3) + (u3 * d - d * u4) + (u4 * d - d * u1) == 0)
        by (nonlinear_arith);
}

/// The area vector of four corners at one height `d`.
#[verifier::rlimit(50)]
proof fn lemma_area_across_y(p: Seq<IVec3>, d: int)
    requires
        p.len() == 4,
        p[0].y == d,
        p[1].y == d,
        p[2].y == d,
        p[3].y == d,
    ensures
        area_vector(p) == (
            0int,
            -((p[0].x - p[2].x) * (p[1].z - p[3].z) - (p[1].x - p[3].x) * (p[0].z - p[2].z)),
            0int,
        ),
{
    lemma_planar(
        p[0].x as int,
        p[0].z as int,
        p[1].x as int,
        p[1].z as int,
        p[2].x as int,
        p[2].z as int,
        p[3].x as int,
        p[3].z as int,
        d,
    );
    lemma_planar(
        p[0].z as int,
        p[0].x as int,
        p[1].z as int,
        p[1].x as int,
        p[2].z as int,
        p[2].x as int,
        p[3].z as int,
        p[3].x as int,
        d,
    );
    assert((p[0].x - p[2].x) * (p[1].z - p[3].z) - (p[1].x - p[3].x) * (p[0].z - p[2].z) == -((
    p[0].z - p[2].z) * (p[1].x - p[3].x) - (p[1].z - p[3].z) * (p[0].x - p[2].x)))
        by (nonlinear_arith);
}

/// The area vector of four corners at one distance `d` along x.
#[verifier::rlimit(50)]
proof fn lemma_area_across_x(p: Seq<IVec3>, d: int)
    requires
        p.len() == 4,
        p[0].x == d,
        p[1].x == d,
        p[2].x == d,
        p[3].x == d,
    ensures
        area_vector(p) == (
            (p[0].y - p[2].y) * (p[1].z - p[3].z) - (p[1].y - p[3].y) * (p[0].z - p[2].z),
            0int,
            0int,
        ),
{
    lemma_planar(
        p[0].y as int,
        p[0].z as int,
        p[1].y as int,
        p[1].z as int,
        p[2].y as int,
        p[2].z as int,
        p[3].y as int,
        p[3].z as int,
        d,
    );
    lemma_planar(
        p[0].z as int,
        p[0].y as int,
        p[1].z as int,
        p[1].y as int,
        p[2].z as int,
        p[2].y as int,
        p[3].z as int,
        p[3].y as int,
        d,
    );
}

/// The area vector of four corners at one distance `d` along z.
#[verifier::rlimit(50)]
proof fn lemma_area_across_z(p: Seq<IVec3>, d: int)
    requires
        p.len() == 4,
        p[0].z == d,
        p[1].z == d,
        p[2].z == d,
        p[3].z == d,
    ensures
        area_vector(p) == (
            0int,
            0int,
            (p[0].x - p[2].x) * (p[1].y - p[3].y) - (p[1].x - p[3].x) * (p[0].y - p[2].y),
        ),
{
    lemma_planar(
        p[0].x as int,
        p[0].y as int,
        p[1].x as int,
        p[1].y as int,
        p[2].x as int,
        p[2].y as int,
        p[3].x as int,
        p[3].y as int,
        d,
    );
    lemma_planar(
        p[0].y as int,
        p[0].x as int,
        p[1].y as int,
        p[1].x as int,
        p[2].y as int,
        p[2].x as int,
        p[3].y as int,
        p[3].x as int,
        d,
    );
}

/// The positions of the vertices of a quad, in the order in which they are
/// emitted.
pub open spec fn spec_corner_positions(
    quad: GreedyQuad,
    dir: FaceDir,
    axis: u32,
    lod: Lod,
    ao: u32,
) -> Seq<IVec3> {
    let jump = lod.spec_jump_index();
    let c1 = corner_pos(dir, axis as int, quad.x as int, quad.y as int, jump);
    let c2 = corner_pos(dir, axis as int, quad.x + quad.w, quad.y as int, jump);
    let c3 = corner_pos(dir, axis as int, quad.x + quad.w, quad.y + quad.h, jump);
    let c4 = corner_pos(dir, axis as int, quad.x as int, quad.y + quad.h, jump);
    let turned = if dir.spec_reverse_order() {
        seq![c1, c4, c3, c2]
    } else {
        seq![c1, c2, c3, c4]
    };
    if (spec_corner_ao(ao, 0, 1, 3) > 0) != (spec_corner_ao(ao, 5, 8, 7) > 0) {
        seq![turned[1], turned[2], turned[3], turned[0]]
    } else {
        turned
    }
}

/// The vertices of a quad within the grid hold the corners of its
/// rectangle, on the side of its cells to which the direction looks, in
/// voxels, and with each the number of the direction, a darkness of at most
/// 3 and the low byte of the block.
#[verifier::rlimit(50)]
pub proof fn lemma_quad_vertices(
    quad: GreedyQuad,
    dir: FaceDir,
    axis: u32,
    lod: Lod,
    ao: u32,
    block_type: u32,
)
    requires
        quad_in_grid(quad, axis, lod),
    ensures
        quad.spec_vertices(dir, axis, lod, ao, block_type).len() == 4,
        positions(quad.spec_vertices(dir, axis, lod, ao, block_type)) == spec_corner_positions(
            quad,
            dir,
            axis,
            lod,
            ao,
        ),
        forall|i: int|
            0 <= i < 4 ==> {
                let vertex = #[trigger] quad.spec_vertices(dir, axis, lod, ao, block_type)[i];
                &&& spec_vertex_normal(vertex) == dir.spec_normal_index()
                &&& spec_vertex_block_type(vertex) == block_type & 0xffu32
                &&& spec_vertex_ao(vertex) <= 3
            },
{
    let x = quad.x as int;
    let y = quad.y as int;
    let w = quad.w as int;
    let h = quad.h as int;
    let a = axis as int;
    lemma_corner_ao(ao, 0, 1, 3);
    lemma_corner_ao(ao, 3, 6, 7);
    lemma_corner_ao(ao, 5, 8, 7);
    lemma_corner_ao(ao, 1, 2, 5);
    lemma_corner(dir, a, x, y, lod, spec_corner_ao(ao, 0, 1, 3), block_type);
    lemma_corner(dir, a, x + w, y, lod, spec_corner_ao(ao, 3, 6, 7), block_type);
    lemma_corner(dir, a, x + w, y + h, lod, spec_corner_ao(ao, 5, 8, 7), block_type);
    lemma_corner(dir, a, x, y + h, lod, spec_corner_ao(ao, 1, 2, 5), block_type);
    let vertices = quad.spec_vertices(dir, axis, lod, ao, block_type);
    assert(vertices.len() == 4);
    assert(positions(vertices) =~= spec_corner_positions(quad, dir, axis, lod, ao));
}

/// Four corners in the order in which the vertices of a quad are emitted:
/// as given, or turned round behind the first where `reverse` is set; after
/// that, moved on by one where `flip` is set.
pub open spec fn ordered(corners: Seq<IVec3>, reverse: bool, flip: bool) -> Seq<IVec3> {
    let turned = if reverse {
        seq![corners[0], corners[3], corners[2], corners[1]]
    } else {
        corners
    };
    if flip {
        seq![turned[1], turned[2], turned[3], turned[0]]
    } else {
        turned
    }
}

/// Moving four corners on by one keeps their area vector, and turning
/// them round turns it round.
#[verifier::rlimit(50)]
proof fn lemma_ordered_area(corners: Seq<IVec3>, reverse: bool, flip: bool)
    requires
        corners.len() == 4,
    ensures
        area_vector(ordered(corners, reverse, flip)) == if reverse {
            (-area_vector(corners).0, -area_vector(corners).1, -area_vector(corners).2)
        } else {
            area_vector(corners)
        },
{
    let c0 = corners[0];
    let c1 = corners[1];
    let c2 = corners[2];
    let c3 = corners[3];
    let turned = if reverse {
        seq![c0, c3, c2, c1]
    } else {
        corners
    };
    assert(area_vector(seq![turned[1], turned[2], turned[3], turned[0]]) == area_vector(turned));
    lemma_cross_turned(c0, c1);
    lemma_cross_turned(c1, c2);
    lemma_cross_turned(c2, c3);
    lemma_cross_turned(c3, c0);
}

/// The cross product of two vectors taken the other way round is its
/// negative.
proof fn lemma_cross_turned(a: IVec3, b: IVec3)
    ensures
        cross(b, a) == (-cross(a, b).0, -cross(a, b).1, -cross(a, b).2),
{
    assert(b.y * a.z - b.z * a.y == -(a.y * b.z - a.z * b.y)) by (nonlinear_arith);
    assert(b.z * a.x - b.x * a.z == -(a.z * b.x - a.x * b.z)) by (nonlinear_arith);
    assert(b.x * a.y - b.y * a.x == -(a.x * b.y - a.y * b.x)) by (nonlinear_arith);
}

/// The area vector of the corners of a rectangle of `wide` by `high`,
/// taken row first, points against the direction in which the order has
/// to be turned round and is twice as long as the rectangle is large.
#[verifier::rlimit(50)]
proof fn lemma_rectangle_area(
    dir: FaceDir,
    corners: Seq<IVec3>,
    r: int,
    b: int,
    wide: int,
    high: int,
    d: int,
)
    requires
        corners.len() == 4,
        match dir {
            FaceDir::Up | FaceDir::Down => {
                &&& corners[0] == (IVec3 { x: r as i32, y: d as i32, z: b as i32 })
                &&& corners[1] == (IVec3 { x: (r + wide) as i32, y: d as i32, z: b as i32 })
                &&& corners[2] == (IVec3 {
                    x: (r + wide) as i32,
                    y: d as i32,
                    z: (b + high) as i32,
                })
                &&& corners[3] == (IVec3 { x: r as i32, y: d as i32, z: (b + high) as i32 })
            },
            FaceDir::Left | FaceDir::Right => {
                &&& corners[0] == (IVec3 { x: d as i32, y: b as i32, z: r as i32 })
                &&& corners[1] == (IVec3 { x: d as i32, y: b as i32, z: (r + wide) as i32 })
                &&& corners[2] == (IVec3 {
                    x: d as i32,
                    y: (b + high) as i32,
                    z: (r + wide) as i32,
                })
                &&& corners[3] == (IVec3 { x: d as i32, y: (b + high) as i32, z: r as i32 })
            },
            FaceDir::Forward | FaceDir::Back => {
                &&& corners[0] == (IVec3 { x: r as i32, y: b as i32, z: d as i32 })
                &&& corners[1] == (IVec3 { x: (r + wide) as i32, y: b as i32, z: d as i32 })
                &&& corners[2] == (IVec3 {
                    x: (r + wide) as i32,
                    y: (b + high) as i32,
                    z: d as i32,
                })
                &&& corners[3] == (IVec3 { x: r as i32, y: (b + high) as i32, z: d as i32 })
            },
        },
        0 <= r,
        0 <= b,
        0 <= d <= 64,
        0 <= wide,
        0 <= high,
        r + wide <= 64,
        b + high <= 64,
    ensures
        ({
            let area = 2 * (wide * high);
            let sign = if dir.spec_reverse_order() {
                -1int
            } else {
                1int
            };
            area_vector(corners) == (
                sign * (area * outward(dir).0),
                sign * (area * outward(dir).1),
                sign * (area * outward(dir).2),
            )
        }),
{
    match dir {
        FaceDir::Up | FaceDir::Down => {
            lemma_area_across_y(corners, d);
        },
        FaceDir::Left | FaceDir::Right => {
            lemma_area_across_x(corners, d);
        },
        FaceDir::Forward | FaceDir::Back => {
            lemma_area_across_z(corners, d);
        },
    }
    let area = 2 * (wide * high);
    assert((0 - wide) * (0 - high) - wide * (0 - high) == area && (0 - high) * wide - (0 - high)
        * (0 - wide) == -area) by (nonlinear_arith)
        requires
            area == 2 * (wide * high),
    ;
    assert(area * 1 == area && area * 0 == 0 && area * (-1) == -area && 1 * area == area && (-1)
        * area == -area && 1 * 0 == 0 && (-1) * 0 == 0 && 1 * (-area) == -area && (-1) * (-area)
        == area);
}

/// The vertices of a quad within the grid run counter-clockwise as seen
/// from outside: the area vector of their positions points along the
/// direction of the quad and is twice as long as the quad is large, in
/// voxels.
#[verifier::rlimit(50)]
pub proof fn lemma_quad_winding(quad: GreedyQuad, dir: FaceDir, axis: u32, lod: Lod, ao: u32)
    requires
        quad_in_grid(quad, axis, lod),
    ensures
        ({
            let jump = lod.spec_jump_index();
            let area = 2 * ((quad.w * jump) * (quad.h * jump));
            area_vector(spec_corner_positions(quad, dir, axis, lod, ao)) == (
                area * outward(dir).0,
                area * outward(dir).1,
                area * outward(dir).2,
            )
        }),
{
    let jump = lod.spec_jump_index();
    let x = quad.x as int;
    let y = quad.y as int;
    let w = quad.w as int;
    let h = quad.h as int;
    let a = axis as int;
    lemma_corner(dir, a, x, y, lod, 0, 0);
    lemma_corner(dir, a, x + w, y, lod, 0, 0);
    lemma_corner(dir, a, x + w, y + h, lod, 0, 0);
    lemma_corner(dir, a, x, y + h, lod, 0, 0);
    let c1 = corner_pos(dir, a, x, y, jump);
    let c2 = corner_pos(dir, a, x + w, y, jump);
    let c3 = corner_pos(dir, a, x + w, y + h, jump);
    let c4 = corner_pos(dir, a, x, y + h, jump);
    let corners = seq![c1, c2, c3, c4];
    let reverse = dir.spec_reverse_order();
    let flip = (spec_corner_ao(ao, 0, 1, 3) > 0) != (spec_corner_ao(ao, 5, 8, 7) > 0);
    assert(spec_corner_positions(quad, dir, axis, lod, ao) =~= ordered(corners, reverse, flip));
    let wide = w * jump;
    let high = h * jump;
    let size = lod.spec_size();
    assert((x + w) * jump == x * jump + wide && (y + h) * jump == y * jump + high && 0 <= x * jump
        && 0 <= y * jump && 0 <= wide && 0 <= high && (x + w) * jump <= 32 && (y + h) * jump <= 32
        && 0 <= a * jump && (a + 1) * jump <= 32) by (nonlinear_arith)
        requires
            wide == w * jump,
            high == h * jump,
            0 <= x,
            0 <= y,
            0 <= a < size,
            1 <= w,
            1 <= h,
            x + w <= size,
            y + h <= size,
            jump * size == 32,
            1 <= jump,
    ;
    let d = if dir.spec_is_positive() {
        (a + 1) * jump
    } else {
        a * jump
    };
    lemma_rectangle_area(dir, corners, x * jump, y * jump, wide, high, d);
    lemma_ordered_area(corners, reverse, flip);
    let area = 2 * (wide * high);
    let ox = area * outward(dir).0;
    let oy = area * outward(dir).1;
    let oz = area * outward(dir).2;
    assert(-((-1) * ox) == ox && -((-1) * oy) == oy && -((-1) * oz) == oz && 1 * ox == ox && 1
        * oy == oy && 1 * oz == oz) by (nonlinear_arith);
}

} // verus!
