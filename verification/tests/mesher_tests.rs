use new_voxel_testing::chunk::ChunkData;
use new_voxel_testing::chunk_mesh::ChunkMesh;
use new_voxel_testing::chunks_refs::ChunksRefs;
use new_voxel_testing::greedy_mesher_optimized::{build_chunk_mesh, greedy_mesh_binary_plane};
use new_voxel_testing::lod::Lod;
use new_voxel_testing::math::IVec3;
use new_voxel_testing::quad::GreedyQuad;
use new_voxel_testing::utils::get_pos_from_vertex_u32;
use new_voxel_testing::voxel::{
    Block, BlockData, BlockFlags, BlockId, BlockRegistry, BlockStringIdentifier, BlockVisibilty,
};
use std::sync::Arc;

const AIR: u16 = 0;
const DIRT: u16 = 1;
const GRASS: u16 = 2;
const GLASS: u16 = 3;
const WATER: u16 = 4;

fn mesher_registry() -> BlockRegistry {
    let mut registry = BlockRegistry::new();
    let mut add = |name: &str, visibility: BlockVisibilty, collision: bool| {
        registry.add_block(
            BlockStringIdentifier(name.to_string()),
            &Block { visibility, collision },
        );
    };
    add("air", BlockVisibilty::Invisible, false);
    add("dirt", BlockVisibilty::Solid, true);
    add("grass", BlockVisibilty::Solid, true);
    add("glass", BlockVisibilty::Transparent, true);
    add("water", BlockVisibilty::Transparent, false);
    registry
}

fn uniform(id: u16) -> Arc<ChunkData> {
    Arc::new(ChunkData::filled(BlockData { block_type: BlockId(id) }))
}

fn uniform_refs(id: u16) -> ChunksRefs {
    let chunks = (0..27).map(|_| uniform(id)).collect();
    ChunksRefs::from_chunks(chunks).unwrap()
}

/// A neighbourhood whose voxels are given by `block`, a function of the
/// position relative to the middle chunk.
fn refs_from(block: impl Fn(i32, i32, i32) -> u16) -> ChunksRefs {
    let mut chunks = Vec::new();
    for index in 0..27 {
        let (cx, cy, cz) = (index % 3 - 1, (index / 3) % 3 - 1, index / 9 - 1);
        let mut voxels = Vec::with_capacity(32768);
        for i in 0..32768 {
            let (x, y, z) = (i % 32, (i / 32) % 32, i / 1024);
            let id = block(cx * 32 + x, cy * 32 + y, cz * 32 + z);
            voxels.push(BlockData { block_type: BlockId(id) });
        }
        chunks.push(Arc::new(ChunkData::from_voxels(voxels).unwrap()));
    }
    ChunksRefs::from_chunks(chunks).unwrap()
}

fn opaque(refs: &ChunksRefs, lod: Lod) -> Option<ChunkMesh> {
    build_chunk_mesh(refs, lod, &mesher_registry(), BlockFlags::solid(), true, false)
}

fn transparent(refs: &ChunksRefs, lod: Lod) -> Option<ChunkMesh> {
    build_chunk_mesh(refs, lod, &mesher_registry(), BlockFlags::transparent(), true, false)
}

fn normal_of(vertex: u32) -> u32 {
    (vertex >> 21) & 7
}

fn ao_of(vertex: u32) -> u32 {
    (vertex >> 18) & 7
}

/// The quads of a mesh: normal, least corner and greatest corner of each.
fn quads_of(mesh: &ChunkMesh) -> Vec<(u32, (i32, i32, i32), (i32, i32, i32))> {
    assert_eq!(mesh.vertices.len() % 4, 0);
    assert_eq!(mesh.indices.len(), mesh.vertices.len() / 4 * 6);
    mesh.vertices
        .chunks(4)
        .map(|quad| {
            let corners: Vec<IVec3> = quad.iter().map(|v| get_pos_from_vertex_u32(*v)).collect();
            let normal = normal_of(quad[0]);
            assert!(quad.iter().all(|v| normal_of(*v) == normal));
            let min = (
                corners.iter().map(|c| c.x).min().unwrap(),
                corners.iter().map(|c| c.y).min().unwrap(),
                corners.iter().map(|c| c.z).min().unwrap(),
            );
            let max = (
                corners.iter().map(|c| c.x).max().unwrap(),
                corners.iter().map(|c| c.y).max().unwrap(),
                corners.iter().map(|c| c.z).max().unwrap(),
            );
            (normal, min, max)
        })
        .collect()
}

/// Twice the signed area vector of a quad's corners in emission order: it
/// points along the side from which the corners run counter-clockwise.
fn winding(quad: &[u32]) -> (i32, i32, i32) {
    let p: Vec<IVec3> = quad.iter().map(|v| get_pos_from_vertex_u32(*v)).collect();
    let mut sum = (0, 0, 0);
    for i in 0..4 {
        let (a, b) = (p[i], p[(i + 1) % 4]);
        sum.0 += a.y * b.z - a.z * b.y;
        sum.1 += a.z * b.x - a.x * b.z;
        sum.2 += a.x * b.y - a.y * b.x;
    }
    sum
}

#[test]
fn empty_neighbourhood_has_no_mesh() {
    let refs = uniform_refs(AIR);
    assert!(opaque(&refs, Lod::L32).is_none());
    assert!(transparent(&refs, Lod::L32).is_none());
}

#[test]
fn filled_neighbourhood_has_no_quads() {
    let refs = uniform_refs(GRASS);
    assert!(opaque(&refs, Lod::L32).is_none());
    assert!(transparent(&refs, Lod::L32).is_none());
    let refs = uniform_refs(GLASS);
    assert!(opaque(&refs, Lod::L32).is_none());
    assert!(transparent(&refs, Lod::L32).is_none());
}

#[test]
fn single_voxel_is_a_cube_of_six_quads() {
    let refs = refs_from(|x, y, z| if (x, y, z) == (0, 0, 0) { DIRT } else { AIR });
    let mesh = opaque(&refs, Lod::L32).unwrap();
    assert_eq!(mesh.vertices.len(), 24);
    assert_eq!(mesh.indices.len(), 36);
    let mut quads = quads_of(&mesh);
    quads.sort();
    assert_eq!(
        quads,
        vec![
            (0, (1, 0, 0), (1, 1, 1)),
            (1, (0, 0, 0), (0, 1, 1)),
            (2, (0, 1, 0), (1, 1, 1)),
            (3, (0, 0, 0), (1, 0, 1)),
            (4, (0, 0, 1), (1, 1, 1)),
            (5, (0, 0, 0), (1, 1, 0)),
        ]
    );
    assert!(mesh.vertices.iter().all(|v| v >> 24 == DIRT as u32));
    assert!(mesh.vertices.iter().all(|v| ao_of(*v) == 0));
    assert!(transparent(&refs, Lod::L32).is_none());
}

#[test]
fn corners_run_counter_clockwise_from_outside() {
    let refs = refs_from(|x, y, z| if (x, y, z) == (3, 4, 5) { DIRT } else { AIR });
    let mesh = opaque(&refs, Lod::L32).unwrap();
    for quad in mesh.vertices.chunks(4) {
        let outward = match normal_of(quad[0]) {
            0 => (2, 0, 0),
            1 => (-2, 0, 0),
            2 => (0, 2, 0),
            3 => (0, -2, 0),
            4 => (0, 0, 2),
            _ => (0, 0, -2),
        };
        assert_eq!(winding(quad), outward);
    }
}

#[test]
fn slab_merges_into_six_quads() {
    let refs = refs_from(|x, y, z| {
        if y == 0 && (0..32).contains(&x) && (0..32).contains(&z) {
            DIRT
        } else {
            AIR
        }
    });
    let mesh = opaque(&refs, Lod::L32).unwrap();
    let mut quads = quads_of(&mesh);
    quads.sort();
    assert_eq!(
        quads,
        vec![
            (0, (32, 0, 0), (32, 1, 32)),
            (1, (0, 0, 0), (0, 1, 32)),
            (2, (0, 1, 0), (32, 1, 32)),
            (3, (0, 0, 0), (32, 0, 32)),
            (4, (0, 0, 32), (32, 1, 32)),
            (5, (0, 0, 0), (32, 1, 0)),
        ]
    );
}

#[test]
fn ground_plane_is_one_quad() {
    let refs = refs_from(|_, y, _| if y <= 0 { DIRT } else { AIR });
    let mesh = opaque(&refs, Lod::L32).unwrap();
    let quads = quads_of(&mesh);
    assert_eq!(quads, vec![(2, (0, 1, 0), (32, 1, 32))]);
    assert_eq!(mesh.indices, vec![0, 1, 2, 0, 2, 3]);
}

#[test]
fn meshing_twice_gives_the_same_mesh() {
    let refs = refs_from(|x, y, z| {
        let h = (x * 7 + z * 13).rem_euclid(11);
        if y < h {
            if (x + y + z).rem_euclid(3) == 0 {
                GRASS
            } else {
                DIRT
            }
        } else if y < 6 {
            WATER
        } else {
            AIR
        }
    });
    let first = opaque(&refs, Lod::L32).unwrap();
    let second = opaque(&refs, Lod::L32).unwrap();
    assert_eq!(first.vertices, second.vertices);
    assert_eq!(first.indices, second.indices);
    let first = transparent(&refs, Lod::L32).unwrap();
    let second = transparent(&refs, Lod::L32).unwrap();
    assert_eq!(first.vertices, second.vertices);
    assert_eq!(first.indices, second.indices);
}

#[test]
fn different_blocks_do_not_merge() {
    let refs = refs_from(|x, y, z| {
        if y == 0 && z == 0 && x == 0 {
            DIRT
        } else if y == 0 && z == 0 && x == 1 {
            GRASS
        } else {
            AIR
        }
    });
    let mesh = opaque(&refs, Lod::L32).unwrap();
    let quads = quads_of(&mesh);
    assert_eq!(quads.len(), 10);
    let tops: Vec<_> = quads.iter().filter(|q| q.0 == 2).collect();
    assert_eq!(tops.len(), 2);
    let blocks: Vec<u32> = mesh
        .vertices
        .chunks(4)
        .filter(|quad| normal_of(quad[0]) == 2)
        .map(|quad| quad[0] >> 24)
        .collect();
    assert_eq!(blocks, vec![DIRT as u32, GRASS as u32]);
}

#[test]
fn same_blocks_merge() {
    let refs = refs_from(|x, y, z| if y == 0 && z == 0 && (0..2).contains(&x) { DIRT } else { AIR });
    let mesh = opaque(&refs, Lod::L32).unwrap();
    let mut quads = quads_of(&mesh);
    quads.sort();
    assert_eq!(
        quads,
        vec![
            (0, (2, 0, 0), (2, 1, 1)),
            (1, (0, 0, 0), (0, 1, 1)),
            (2, (0, 1, 0), (2, 1, 1)),
            (3, (0, 0, 0), (2, 0, 1)),
            (4, (0, 0, 1), (2, 1, 1)),
            (5, (0, 0, 0), (2, 1, 0)),
        ]
    );
}

#[test]
fn neighbour_chunk_hides_boundary_faces() {
    let refs = refs_from(|x, y, z| {
        if (x, y, z) == (0, 0, 0) || (x, y, z) == (-1, 0, 0) {
            DIRT
        } else {
            AIR
        }
    });
    let mesh = opaque(&refs, Lod::L32).unwrap();
    let quads = quads_of(&mesh);
    assert_eq!(quads.len(), 5);
    assert!(quads.iter().all(|q| q.0 != 1));
}

#[test]
fn occlusion_darkens_and_splits_quads() {
    let refs = refs_from(|x, y, z| {
        if y == 0 && (0..2).contains(&x) && z == 0 {
            DIRT
        } else if (x, y, z) == (2, 1, 0) {
            DIRT
        } else {
            AIR
        }
    });
    let mesh = opaque(&refs, Lod::L32).unwrap();
    let tops: Vec<&[u32]> = mesh
        .vertices
        .chunks(4)
        .filter(|quad| {
            normal_of(quad[0]) == 2 && quad.iter().all(|v| get_pos_from_vertex_u32(*v).y == 1)
        })
        .collect();
    assert_eq!(tops.len(), 2);
    let dark: Vec<u32> = tops
        .iter()
        .map(|quad| quad.iter().map(|v| ao_of(*v)).max().unwrap())
        .collect();
    assert_eq!(dark, vec![0, 1]);
    let darkened: Vec<IVec3> = tops[1]
        .iter()
        .filter(|v| ao_of(**v) == 1)
        .map(|v| get_pos_from_vertex_u32(*v))
        .collect();
    assert_eq!(darkened.len(), 2);
    assert!(darkened.iter().all(|p| p.x == 2 && p.y == 1));
}

#[test]
fn without_occlusion_quads_merge_across_shadows() {
    let refs = refs_from(|x, y, z| {
        if y == 0 && (0..2).contains(&x) && z == 0 {
            DIRT
        } else if (x, y, z) == (2, 1, 0) {
            DIRT
        } else {
            AIR
        }
    });
    let mesh =
        build_chunk_mesh(&refs, Lod::L32, &mesher_registry(), BlockFlags::solid(), false, false)
            .unwrap();
    let tops = quads_of(&mesh)
        .into_iter()
        .filter(|q| q.0 == 2 && (q.1).1 == 1)
        .collect::<Vec<_>>();
    assert_eq!(tops, vec![(2, (0, 1, 0), (2, 1, 1))]);
    assert!(mesh.vertices.iter().all(|v| ao_of(*v) == 0));
}

#[test]
fn transparent_blocks_hide_only_their_own_kind() {
    let refs = refs_from(|x, y, z| match (x, y, z) {
        (0, 0, 0) | (1, 0, 0) => GLASS,
        (2, 0, 0) => WATER,
        _ => AIR,
    });
    let mesh = transparent(&refs, Lod::L32).unwrap();
    let quads = quads_of(&mesh);
    let towards_plus_x: Vec<_> = quads.iter().filter(|q| q.0 == 0).collect();
    let towards_minus_x: Vec<_> = quads.iter().filter(|q| q.0 == 1).collect();
    assert_eq!(towards_plus_x.len(), 2);
    assert_eq!(towards_minus_x.len(), 2);
    assert!(towards_plus_x.iter().any(|q| (q.1).0 == 2));
    assert!(towards_plus_x.iter().any(|q| (q.1).0 == 3));
    assert!(towards_minus_x.iter().any(|q| (q.1).0 == 0));
    assert!(towards_minus_x.iter().any(|q| (q.1).0 == 2));
    assert!(opaque(&refs, Lod::L32).is_none());
}

#[test]
fn solid_blocks_hide_transparent_faces_unless_told_otherwise() {
    let refs = refs_from(|x, y, z| match (x, y, z) {
        (0, 0, 0) => GLASS,
        (1, 0, 0) => DIRT,
        _ => AIR,
    });
    let registry = mesher_registry();
    let hidden =
        build_chunk_mesh(&refs, Lod::L32, &registry, BlockFlags::transparent(), true, false)
            .unwrap();
    assert_eq!(quads_of(&hidden).len(), 5);
    assert!(quads_of(&hidden).iter().all(|q| q.0 != 0));
    let shown = build_chunk_mesh(&refs, Lod::L32, &registry, BlockFlags::transparent(), true, true)
        .unwrap();
    assert_eq!(quads_of(&shown).len(), 6);
    let solid = build_chunk_mesh(&refs, Lod::L32, &registry, BlockFlags::solid(), true, false)
        .unwrap();
    assert_eq!(quads_of(&solid).len(), 6);
}

#[test]
fn unknown_blocks_are_meshed_as_air() {
    let refs = refs_from(|x, y, z| if (x, y, z) == (0, 0, 0) { 999 } else { AIR });
    assert!(opaque(&refs, Lod::L32).is_none());
    assert!(transparent(&refs, Lod::L32).is_none());
}

#[test]
fn lower_detail_meshes_cells() {
    let refs = refs_from(|x, y, z| if (x, y, z) == (0, 0, 0) { DIRT } else { AIR });
    let mesh = opaque(&refs, Lod::L16).unwrap();
    let mut quads = quads_of(&mesh);
    quads.sort();
    assert_eq!(
        quads,
        vec![
            (0, (2, 0, 0), (2, 2, 2)),
            (1, (0, 0, 0), (0, 2, 2)),
            (2, (0, 2, 0), (2, 2, 2)),
            (3, (0, 0, 0), (2, 0, 2)),
            (4, (0, 0, 2), (2, 2, 2)),
            (5, (0, 0, 0), (2, 2, 0)),
        ]
    );
    let refs = refs_from(|x, y, z| {
        if (0..32).contains(&x) && (0..32).contains(&y) && (0..32).contains(&z) {
            DIRT
        } else {
            AIR
        }
    });
    let mesh = opaque(&refs, Lod::L2).unwrap();
    let mut quads = quads_of(&mesh);
    quads.sort();
    assert_eq!(
        quads,
        vec![
            (0, (32, 0, 0), (32, 32, 32)),
            (1, (0, 0, 0), (0, 32, 32)),
            (2, (0, 32, 0), (32, 32, 32)),
            (3, (0, 0, 0), (32, 0, 32)),
            (4, (0, 0, 32), (32, 32, 32)),
            (5, (0, 0, 0), (32, 32, 0)),
        ]
    );
}

#[test]
fn lower_detail_takes_the_most_frequent_block() {
    let refs = refs_from(|x, y, z| match (x, y, z) {
        (0, 0, 0) | (1, 0, 0) | (0, 1, 0) => GRASS,
        (1, 1, 0) | (0, 0, 1) => DIRT,
        (2, 0, 0) | (3, 0, 0) => GRASS,
        (2, 1, 0) | (3, 1, 0) => DIRT,
        _ => AIR,
    });
    let mesh = opaque(&refs, Lod::L16).unwrap();
    let blocks: Vec<(i32, u32)> = mesh
        .vertices
        .chunks(4)
        .filter(|quad| normal_of(quad[0]) == 3)
        .map(|quad| {
            (quad.iter().map(|v| get_pos_from_vertex_u32(*v).x).min().unwrap(), quad[0] >> 24)
        })
        .collect();
    assert_eq!(blocks, vec![(0, GRASS as u32), (2, DIRT as u32)]);
}

#[test]
fn plane_of_one_bit() {
    let mut data = [0u32; 32];
    data[3] = 1 << 5;
    assert_eq!(greedy_mesh_binary_plane(data, 32), vec![GreedyQuad { x: 3, y: 5, w: 1, h: 1 }]);
}

#[test]
fn full_plane_is_one_quad() {
    assert_eq!(
        greedy_mesh_binary_plane([u32::MAX; 32], 32),
        vec![GreedyQuad { x: 0, y: 0, w: 32, h: 32 }]
    );
    assert_eq!(greedy_mesh_binary_plane([0u32; 32], 32), vec![]);
}

#[test]
fn plane_grows_rows_only_over_the_whole_run() {
    let mut data = [0u32; 32];
    data[0] = 0b0110;
    data[1] = 0b1110;
    data[2] = 0b0100;
    assert_eq!(
        greedy_mesh_binary_plane(data, 32),
        vec![
            GreedyQuad { x: 0, y: 1, w: 2, h: 2 },
            GreedyQuad { x: 1, y: 3, w: 1, h: 1 },
            GreedyQuad { x: 2, y: 2, w: 1, h: 1 },
        ]
    );
}

#[test]
fn plane_counts_only_rows_and_bits_below_the_size() {
    let mut data = [0u32; 32];
    data[0] = 0b11;
    data[1] = 0b11;
    data[2] = 0b11;
    assert_eq!(
        greedy_mesh_binary_plane(data, 2),
        vec![GreedyQuad { x: 0, y: 0, w: 2, h: 2 }, GreedyQuad { x: 2, y: 0, w: 1, h: 2 }]
    );
    let mut data = [0u32; 32];
    data[0] = 0b100;
    assert_eq!(greedy_mesh_binary_plane(data, 2), vec![]);
}

#[test]
fn quads_cover_each_face_once() {
    let mut data = [0u32; 32];
    let mut state: u32 = 0x2545_f491;
    for row in data.iter_mut() {
        state ^= state << 13;
        state ^= state >> 17;
        state ^= state << 5;
        *row = state | (state >> 3);
    }
    let quads = greedy_mesh_binary_plane(data, 32);
    let mut covered = [0u32; 32];
    for quad in &quads {
        for row in quad.x..quad.x + quad.w {
            for bit in quad.y..quad.y + quad.h {
                assert_eq!(covered[row as usize] & (1 << bit), 0);
                covered[row as usize] |= 1 << bit;
            }
        }
    }
    assert_eq!(covered, data);
}
