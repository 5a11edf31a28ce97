use crate::math::IVec3;
use vstd::prelude::*;

verus! {

/// Coordinates of the voxel with linear index `i` in a cube of edge `bounds`,
/// x varying fastest, then y, then z.
pub open spec fn spec_index_to_ivec3_bounds(i: int, bounds: int) -> IVec3 {
    IVec3 {
        x: (i % bounds) as i32,
        y: ((i / bounds) % bounds) as i32,
        z: (i / (bounds * bounds)) as i32,
    }
}

/// Coordinates of the voxel with linear index `i` in a cube of edge `bounds`,
/// z varying fastest, then y, then x.
pub open spec fn spec_index_to_ivec3_bounds_reverse(i: int, bounds: int) -> IVec3 {
    IVec3 {
        x: (i / (bounds * bounds)) as i32,
        y: ((i / bounds) % bounds) as i32,
        z: (i % bounds) as i32,
    }
}

/// Linear index of `pos` in a cube of edge `bounds`, x varying fastest.
pub open spec fn spec_vec3_to_index(pos: IVec3, bounds: int) -> int {
    (pos.x as int) % bounds + pos.y * bounds + pos.z * (bounds * bounds)
}

/// Whether each coordinate of `pos` lies in `[0, bounds)`.
pub open spec fn in_cube(pos: IVec3, bounds: int) -> bool {
    0 <= pos.x < bounds && 0 <= pos.y < bounds && 0 <= pos.z < bounds
}

/// Coordinates of the voxel with linear index `i` in a chunk.
pub fn index_to_ivec3(i: i32) -> (v: IVec3)
    requires
        0 <= i,
    ensures
        v == spec_index_to_ivec3_bounds(i as int, 32),
        0 <= v.x < 32,
        0 <= v.y < 32,
        0 <= v.z,
        i < 32768 ==> v.z < 32,
{
    let x: i32 = i % 32;
    let y: i32 = (i / 32) % 32;
    let z: i32 = i / (32 * 32);
    IVec3::new(x, y, z)
}

/// Coordinates of the voxel with linear index `i` in a cube of edge `bounds`.
pub fn index_to_ivec3_bounds(i: i32, bounds: i32) -> (v: IVec3)
    requires
        0 <= i,
        0 < bounds,
        bounds * bounds <= i32::MAX,
    ensures
        v == spec_index_to_ivec3_bounds(i as int, bounds as int),
        0 <= v.x < bounds,
        0 <= v.y < bounds,
        0 <= v.z,
{
    assert(0 < bounds as int * bounds as int && 0 <= i as int / (bounds as int * bounds as int)
        <= i) by (nonlinear_arith)
        requires
            0 <= i,
            0 < bounds,
    ;
    assert(0 <= i as int / bounds as int <= i) by (nonlinear_arith)
        requires
            0 <= i,
            0 < bounds,
    ;
    let x: i32 = i % bounds;
    let y: i32 = (i / bounds) % bounds;
    let z: i32 = i / (bounds * bounds);
    IVec3::new(x, y, z)
}

/// Like [`index_to_ivec3_bounds`], with z varying fastest and x slowest.
pub fn index_to_ivec3_bounds_reverse(i: i32, bounds: i32) -> (v: IVec3)
    requires
        0 <= i,
        0 < bounds,
        bounds * bounds <= i32::MAX,
    ensures
        v == spec_index_to_ivec3_bounds_reverse(i as int, bounds as int),
        0 <= v.z < bounds,
        0 <= v.y < bounds,
        0 <= v.x,
{
    assert(0 < bounds as int * bounds as int && 0 <= i as int / (bounds as int * bounds as int)
        <= i) by (nonlinear_arith)
        requires
            0 <= i,
            0 < bounds,
    ;
    assert(0 <= i as int / bounds as int <= i) by (nonlinear_arith)
        requires
            0 <= i,
            0 < bounds,
    ;
    let z: i32 = i % bounds;
    let y: i32 = (i / bounds) % bounds;
    let x: i32 = i / (bounds * bounds);
    IVec3::new(x, y, z)
}

/// Linear index of `pos` in a cube of edge `bounds`.
pub fn vec3_to_index(pos: IVec3, bounds: i32) -> (index: usize)
    requires
        0 < bounds,
        0 <= pos.x,
        0 <= pos.y,
        0 <= pos.z,
        bounds * bounds <= i32::MAX,
        bounds + pos.y * bounds + pos.z * (bounds * bounds) <= i32::MAX,
    ensures
        index == spec_vec3_to_index(pos, bounds as int),
        in_cube(pos, bounds as int) ==> index == pos.x + pos.y * bounds + pos.z * bounds * bounds
            && index < bounds * bounds * bounds,
{
    proof {
        lemma_index_terms(pos, bounds as int);
    }
    let x_i: i32 = pos.x % bounds;
    let y_i: i32 = pos.y * bounds;
    let z_i: i32 = pos.z * (bounds * bounds);
    (x_i + y_i + z_i) as usize
}

/// The terms of a linear index are non-negative and bounded by their sum's
/// bound; within the cube, the index stays below the cube's volume.
proof fn lemma_index_terms(pos: IVec3, bounds: int)
    requires
        0 < bounds,
        0 <= pos.x,
        0 <= pos.y,
        0 <= pos.z,
    ensures
        0 <= pos.y * bounds,
        0 <= bounds * bounds,
        0 <= pos.z * (bounds * bounds),
        pos.z > 0 ==> bounds * bounds <= pos.z * (bounds * bounds),
        0 <= (pos.x as int) % bounds < bounds,
        pos.x < bounds ==> (pos.x as int) % bounds == pos.x,
        pos.z * (bounds * bounds) == pos.z * bounds * bounds,
        in_cube(pos, bounds) ==> pos.x + pos.y * bounds + pos.z * bounds * bounds < bounds * bounds
            * bounds,
{
    assert(0 <= pos.y * bounds) by (nonlinear_arith)
        requires
            0 < bounds,
            0 <= pos.y,
    ;
    assert(0 <= bounds * bounds) by (nonlinear_arith);
    assert(0 <= pos.z * (bounds * bounds) && (pos.z > 0 ==> bounds * bounds <= pos.z * (bounds
        * bounds))) by (nonlinear_arith)
        requires
            0 <= bounds * bounds,
            0 <= pos.z,
    ;
    assert(pos.z * (bounds * bounds) == pos.z * bounds * bounds) by (nonlinear_arith);
    if pos.x < bounds {
        vstd::arithmetic::div_mod::lemma_small_mod(pos.x as nat, bounds as nat);
    }
    vstd::arithmetic::div_mod::lemma_mod_pos_bound(pos.x as int, bounds);
    if in_cube(pos, bounds) {
        assert(pos.x + pos.y * bounds + pos.z * bounds * bounds < bounds * bounds * bounds)
            by (nonlinear_arith)
            requires
                0 <= pos.x < bounds,
                0 <= pos.y < bounds,
                0 <= pos.z < bounds,
        ;
    }
}

/// Within a chunk, taking the linear index of a position and then the
/// position of that index gives the position back.
pub proof fn lemma_index_roundtrip(pos: IVec3)
    requires
        in_cube(pos, 32),
    ensures
        0 <= spec_vec3_to_index(pos, 32) < 32768,
        spec_index_to_ivec3_bounds(spec_vec3_to_index(pos, 32), 32) == pos,
{
    let i = spec_vec3_to_index(pos, 32);
    assert(i == pos.x + pos.y * 32 + pos.z * 1024);
    assert(i % 32 == pos.x);
    assert(i / 32 == pos.y + pos.z * 32);
    assert((i / 32) % 32 == pos.y);
    assert(i / 1024 == pos.z);
}

/// Within a chunk, taking the position of a linear index and then the index
/// of that position gives the index back.
pub proof fn lemma_position_roundtrip(i: int)
    requires
        0 <= i < 32768,
    ensures
        in_cube(spec_index_to_ivec3_bounds(i, 32), 32),
        spec_vec3_to_index(spec_index_to_ivec3_bounds(i, 32), 32) == i,
{
    let pos = spec_index_to_ivec3_bounds(i, 32);
    assert(pos.x == i % 32);
    assert(pos.y == (i / 32) % 32);
    assert(pos.z == i / 1024);
}

/// Whether `pos` has a coordinate equal to 0 or 32.
pub open spec fn spec_is_on_edge(pos: IVec3) -> bool {
    pos.x == 0 || pos.x == 32 || pos.y == 0 || pos.y == 32 || pos.z == 0 || pos.z == 32
}

/// Whether `pos` lies on a boundary plane of the vertex grid of a chunk.
pub fn is_on_edge(pos: IVec3) -> (on_edge: bool)
    ensures
        on_edge == spec_is_on_edge(pos),
{
    if pos.x == 0 || pos.x == 32 {
        return true;
    }
    if pos.y == 0 || pos.y == 32 {
        return true;
    }
    if pos.z == 0 || pos.z == 32 {
        return true;
    }
    false
}

/// Direction along one axis in which a voxel coordinate borders the next
/// chunk: -1 at coordinate 0, +1 at coordinate 31, 0 elsewhere.
pub open spec fn edge_direction(c: i32) -> i32 {
    if c == 0 {
        -1i32
    } else if c == 31 {
        1i32
    } else {
        0i32
    }
}

/// Offset of the chunk that the voxel at local position `pos` borders, if any.
pub open spec fn spec_get_edging_chunk(pos: IVec3) -> Option<IVec3> {
    let dir = IVec3 {
        x: edge_direction(pos.x),
        y: edge_direction(pos.y),
        z: edge_direction(pos.z),
    };
    if dir == (IVec3 { x: 0, y: 0, z: 0 }) {
        None
    } else {
        Some(dir)
    }
}

/// If the voxel at local position `pos` lies on the boundary of its chunk,
/// the offset towards the chunk it borders.
pub fn get_edging_chunk(pos: IVec3) -> (edging: Option<IVec3>)
    ensures
        edging == spec_get_edging_chunk(pos),
{
    let mut chunk_dir = IVec3::splat(0);
    if pos.x == 0 {
        chunk_dir.x = -1;
    } else if pos.x == 31 {
        chunk_dir.x = 1;
    }
    if pos.y == 0 {
        chunk_dir.y = -1;
    } else if pos.y == 31 {
        chunk_dir.y = 1;
    }
    if pos.z == 0 {
        chunk_dir.z = -1;
    } else if pos.z == 31 {
        chunk_dir.z = 1;
    }
    if chunk_dir.x == 0 && chunk_dir.y == 0 && chunk_dir.z == 0 {
        None
    } else {
        Some(chunk_dir)
    }
}

/// The chunk of an observer at world coordinate `world`, along one axis:
/// chunk 0 reaches from 16 below the origin of the world to 16 above it.
pub open spec fn spec_world_to_chunk_axis(world: int) -> int {
    (world - 16) / 32
}

/// The chunk of an observer at the world position `pos`.
pub open spec fn spec_world_to_chunk(pos: IVec3) -> IVec3 {
    IVec3 {
        x: spec_world_to_chunk_axis(pos.x as int) as i32,
        y: spec_world_to_chunk_axis(pos.y as int) as i32,
        z: spec_world_to_chunk_axis(pos.z as int) as i32,
    }
}

/// The chunk of an observer at world coordinate `world`, along one axis.
fn world_to_chunk_axis(world: i32) -> (chunk: i32)
    ensures
        chunk == spec_world_to_chunk_axis(world as int),
        -0x0400_0001 <= chunk < 0x0400_0000,
{
    let shifted: i64 = world as i64 - 16;
    let chunk: i64 = if shifted >= 0 {
        shifted / 32
    } else {
        -((-shifted + 31) / 32)
    };
    chunk as i32
}

/// The chunk of an observer at the world position `pos`, given in whole
/// voxels: a position with a fraction counts as the voxel at or below it.
pub fn world_to_chunk(pos: IVec3) -> (chunk: IVec3)
    ensures
        chunk == spec_world_to_chunk(pos),
        -0x0400_0001 <= chunk.x < 0x0400_0000,
        -0x0400_0001 <= chunk.y < 0x0400_0000,
        -0x0400_0001 <= chunk.z < 0x0400_0000,
{
    IVec3::new(
        world_to_chunk_axis(pos.x),
        world_to_chunk_axis(pos.y),
        world_to_chunk_axis(pos.z),
    )
}

/// A vertex packed into 32 bits, from the least significant bit up: 6 bits
/// each of x, y and z, 3 bits of ambient occlusion, 3 bits of normal
/// direction and 8 bits of block type. A field wider than its place spills
/// into the fields above it; block type bits above the eighth are lost.
pub open spec fn spec_make_vertex_u32(pos: IVec3, ao: u32, normal: u32, block_type: u32) -> u32 {
    (pos.x as u32) | ((pos.y as u32) << 6u32) | ((pos.z as u32) << 12u32) | (ao << 18u32) | (normal
        << 21u32) | (block_type << 24u32)
}

/// The position fields of a packed vertex.
pub open spec fn spec_get_pos_from_vertex_u32(vertex: u32) -> IVec3 {
    IVec3 {
        x: (vertex & 63u32) as i32,
        y: ((vertex >> 6u32) & 63u32) as i32,
        z: ((vertex >> 12u32) & 63u32) as i32,
    }
}

/// The ambient occlusion field of a packed vertex.
pub open spec fn spec_vertex_ao(vertex: u32) -> u32 {
    (vertex >> 18u32) & 7u32
}

/// The normal direction field of a packed vertex.
pub open spec fn spec_vertex_normal(vertex: u32) -> u32 {
    (vertex >> 21u32) & 7u32
}

/// The block type field of a packed vertex.
pub open spec fn spec_vertex_block_type(vertex: u32) -> u32 {
    vertex >> 24u32
}

/// Whether the fields of a vertex fit the places they are packed into.
pub open spec fn packable(pos: IVec3, ao: u32, normal: u32, block_type: u32) -> bool {
    in_cube(pos, 64) && ao < 8 && normal < 8 && block_type < 256
}

/// Packs a vertex into 32 bits.
pub fn make_vertex_u32(pos: IVec3, ao: u32, normal: u32, block_type: u32) -> (vertex: u32)
    ensures
        vertex == spec_make_vertex_u32(pos, ao, normal, block_type),
{
    (#[verifier::truncate] (pos.x as u32)) | ((#[verifier::truncate] (pos.y as u32)) << 6u32) | ((
    #[verifier::truncate] (pos.z as u32)) << 12u32) | (ao << 18u32) | (normal << 21u32) | (
    block_type << 24u32)
}

/// A mask of the lowest `bits` bits.
fn x_positive_bits(bits: u32) -> (mask: u32)
    requires
        bits < 32,
    ensures
        mask == ((1u32 << bits) - 1) as u32,
        bits == 6 ==> mask == 63,
{
    assert(1u32 << bits >= 1) by (bit_vector)
        requires
            bits < 32,
    ;
    assert(1u32 << 6u32 == 64) by (bit_vector);
    (1u32 << bits) - 1
}

/// Unpacks the position of a packed vertex.
pub fn get_pos_from_vertex_u32(vertex: u32) -> (pos: IVec3)
    ensures
        pos == spec_get_pos_from_vertex_u32(vertex),
        in_cube(pos, 64),
{
    let mask: u32 = x_positive_bits(6);
    assert(vertex & 63u32 < 64 && (vertex >> 6u32) & 63u32 < 64 && (vertex >> 12u32) & 63u32 < 64)
        by (bit_vector);
    IVec3::new(
        (vertex & mask) as i32,
        ((vertex >> 6) & mask) as i32,
        ((vertex >> 12) & mask) as i32,
    )
}

/// Unpacking a packed vertex gives back every field that fitted its place.
pub proof fn lemma_vertex_roundtrip(pos: IVec3, ao: u32, normal: u32, block_type: u32)
    requires
        packable(pos, ao, normal, block_type),
    ensures
        spec_get_pos_from_vertex_u32(spec_make_vertex_u32(pos, ao, normal, block_type)) == pos,
        spec_vertex_ao(spec_make_vertex_u32(pos, ao, normal, block_type)) == ao,
        spec_vertex_normal(spec_make_vertex_u32(pos, ao, normal, block_type)) == normal,
        spec_vertex_block_type(spec_make_vertex_u32(pos, ao, normal, block_type)) == block_type,
{
    lemma_vertex_fields(pos, ao, normal, block_type);
    assert(block_type & 0xffu32 == block_type) by (bit_vector)
        requires
            block_type < 256,
    ;
}

/// Unpacking a packed vertex gives back its position, occlusion and normal
/// where they fitted their places, whatever the block type, and of the
/// block type its low byte.
pub proof fn lemma_vertex_fields(pos: IVec3, ao: u32, normal: u32, block_type: u32)
    requires
        in_cube(pos, 64),
        ao < 8,
        normal < 8,
    ensures
        spec_get_pos_from_vertex_u32(spec_make_vertex_u32(pos, ao, normal, block_type)) == pos,
        spec_vertex_ao(spec_make_vertex_u32(pos, ao, normal, block_type)) == ao,
        spec_vertex_normal(spec_make_vertex_u32(pos, ao, normal, block_type)) == normal,
        spec_vertex_block_type(spec_make_vertex_u32(pos, ao, normal, block_type)) == block_type
            & 0xffu32,
{
    let x = pos.x as u32;
    let y = pos.y as u32;
    let z = pos.z as u32;
    let v = x | (y << 6u32) | (z << 12u32) | (ao << 18u32) | (normal << 21u32) | (block_type
        << 24u32);
    assert(v & 63u32 == x && (v >> 6u32) & 63u32 == y && (v >> 12u32) & 63u32 == z && (v >> 18u32)
        & 7u32 == ao && (v >> 21u32) & 7u32 == normal && v >> 24u32 == block_type & 0xffu32)
        by (bit_vector)
        requires
            v == x | (y << 6u32) | (z << 12u32) | (ao << 18u32) | (normal << 21u32) | (block_type
                << 24u32),
            x < 64,
            y < 64,
            z < 64,
            ao < 8,
            normal < 8,
    ;
}

/// Offset, within its quad, of the vertex that the `k`-th index of a quad
/// names: two triangles, (0, 1, 2) and (0, 2, 3).
pub open spec fn quad_corner(k: int) -> int {
    if k == 0 || k == 3 {
        0
    } else if k == 1 {
        1
    } else if k == 2 || k == 4 {
        2
    } else {
        3
    }
}

/// The `i`-th entry of the index list of a mesh made of quads.
pub open spec fn spec_index_at(i: int) -> int {
    4 * (i / 6) + quad_corner(i % 6)
}

/// The index list of a mesh of `vertex_count` vertices, four to a quad.
pub open spec fn spec_generate_indices(vertex_count: int) -> Seq<u32> {
    Seq::new((6 * (vertex_count / 4)) as nat, |i: int| spec_index_at(i) as u32)
}

/// Index list for `vertex_count` vertices that form quads, each given
/// counter-clockwise: six indices per quad, two triangles.
pub fn generate_indices(vertex_count: usize) -> (indices: Vec<u32>)
    requires
        vertex_count <= u32::MAX,
    ensures
        indices@ == spec_generate_indices(vertex_count as int),
{
    let indices_count: usize = vertex_count / 4;
    let mut indices: Vec<u32> = Vec::new();
    let mut quad: usize = 0;
    while quad < indices_count
        invariant
            quad <= indices_count,
            indices_count == vertex_count / 4,
            vertex_count <= u32::MAX,
            indices@ == Seq::new((6 * quad) as nat, |i: int| spec_index_at(i) as u32),
        decreases indices_count - quad,
    {
        let vert_index: u32 = quad as u32 * 4u32;
        indices.push(vert_index);
        indices.push(vert_index + 1);
        indices.push(vert_index + 2);
        indices.push(vert_index);
        indices.push(vert_index + 2);
        indices.push(vert_index + 3);
        quad += 1;
        assert(indices@ =~= Seq::new((6 * quad) as nat, |i: int| spec_index_at(i) as u32));
    }
    indices
}

} // verus!
