use new_voxel_testing::face_direction::FaceDir;
use new_voxel_testing::lod::Lod;
use new_voxel_testing::math::IVec3;
use new_voxel_testing::quad::GreedyQuad;
use new_voxel_testing::rendering::chunk_origin;
use new_voxel_testing::scanner::{scan, ChunkPos, DataScanner, GlobalScannerDesiredChunks, Scanner};
use new_voxel_testing::utils::{get_pos_from_vertex_u32, make_vertex_u32, world_to_chunk};

fn c(x: i32, y: i32, z: i32) -> IVec3 {
    IVec3::new(x, y, z)
}

#[test]
fn levels_of_detail() {
    let levels = [(Lod::L32, 32, 1), (Lod::L16, 16, 2), (Lod::L8, 8, 4), (Lod::L4, 4, 8), (Lod::L2, 2, 16)];
    for (lod, size, jump) in levels {
        assert_eq!(lod.size(), size);
        assert_eq!(lod.jump_index(), jump);
    }
}

#[test]
fn directions_are_numbered_by_axis_and_sign() {
    let dirs = [
        (FaceDir::Right, 0, c(1, 0, 0)),
        (FaceDir::Left, 1, c(-1, 0, 0)),
        (FaceDir::Up, 2, c(0, 1, 0)),
        (FaceDir::Down, 3, c(0, -1, 0)),
        (FaceDir::Back, 4, c(0, 0, 1)),
        (FaceDir::Forward, 5, c(0, 0, -1)),
    ];
    for (dir, index, step) in dirs {
        assert_eq!(dir.normal_index(), index);
        assert_eq!(FaceDir::from_normal_index(index), dir);
        assert_eq!(dir.air_sample_dir(), step);
        assert_eq!(dir.axis_step(), step.x + step.y + step.z);
        let cell = dir.cell(7, 0, 0);
        assert_eq!(cell.x * step.x + cell.y * step.y + cell.z * step.z, 7 * dir.axis_step());
    }
    assert_eq!(FaceDir::from_normal_index(9), FaceDir::Forward);
}

#[test]
fn rows_and_bits_of_each_direction() {
    assert_eq!(FaceDir::Up.cell(1, 2, 3), c(2, 1, 3));
    assert_eq!(FaceDir::Down.cell(1, 2, 3), c(2, 1, 3));
    assert_eq!(FaceDir::Left.cell(1, 2, 3), c(1, 3, 2));
    assert_eq!(FaceDir::Right.cell(1, 2, 3), c(1, 3, 2));
    assert_eq!(FaceDir::Forward.cell(1, 2, 3), c(2, 3, 1));
    assert_eq!(FaceDir::Back.cell(1, 2, 3), c(2, 3, 1));
    assert_eq!(FaceDir::Up.world_to_sample(1, 2, 3), c(2, 2, 3));
    assert_eq!(FaceDir::Down.world_to_sample(1, 2, 3), c(2, 1, 3));
    assert_eq!(FaceDir::Left.world_to_sample(1, 2, 3), c(1, 3, 2));
    assert_eq!(FaceDir::Right.world_to_sample(1, 2, 3), c(2, 3, 2));
    assert_eq!(FaceDir::Forward.world_to_sample(1, 2, 3), c(2, 3, 1));
    assert_eq!(FaceDir::Back.world_to_sample(1, 2, 3), c(2, 3, 2));
    assert!(FaceDir::Up.reverse_order());
    assert!(!FaceDir::Down.reverse_order());
    assert!(!FaceDir::Left.reverse_order());
    assert!(FaceDir::Right.reverse_order());
    assert!(FaceDir::Forward.reverse_order());
    assert!(!FaceDir::Back.reverse_order());
}

#[test]
fn quad_gives_four_packed_corners() {
    let quad = GreedyQuad { x: 1, y: 2, w: 3, h: 4 };
    let mut vertices = vec![7];
    quad.append_vertices(&mut vertices, FaceDir::Down, 5, &Lod::L32, 0, 9);
    assert_eq!(
        vertices,
        vec![
            7,
            make_vertex_u32(c(1, 5, 2), 0, 3, 9),
            make_vertex_u32(c(4, 5, 2), 0, 3, 9),
            make_vertex_u32(c(4, 5, 6), 0, 3, 9),
            make_vertex_u32(c(1, 5, 6), 0, 3, 9),
        ]
    );
    let mut vertices = Vec::new();
    quad.append_vertices(&mut vertices, FaceDir::Up, 5, &Lod::L16, 0, 9);
    assert_eq!(
        vertices,
        vec![
            make_vertex_u32(c(2, 12, 4), 0, 2, 9),
            make_vertex_u32(c(2, 12, 12), 0, 2, 9),
            make_vertex_u32(c(8, 12, 12), 0, 2, 9),
            make_vertex_u32(c(8, 12, 4), 0, 2, 9),
        ]
    );
}

#[test]
fn quad_corners_darken_and_flip() {
    let quad = GreedyQuad { x: 0, y: 0, w: 1, h: 1 };
    let mut vertices = Vec::new();
    quad.append_vertices(&mut vertices, FaceDir::Back, 0, &Lod::L32, 0b0_0000_1011, 1);
    let seen: Vec<(IVec3, u32)> =
        vertices.iter().map(|v| (get_pos_from_vertex_u32(*v), (v >> 18) & 7)).collect();
    assert_eq!(
        seen,
        vec![(c(1, 0, 1), 1), (c(1, 1, 1), 0), (c(0, 1, 1), 1), (c(0, 0, 1), 3)]
    );
    let mut vertices = Vec::new();
    quad.append_vertices(&mut vertices, FaceDir::Back, 0, &Lod::L32, 0b1_1110_1011, 1);
    let seen: Vec<(IVec3, u32)> =
        vertices.iter().map(|v| (get_pos_from_vertex_u32(*v), (v >> 18) & 7)).collect();
    assert_eq!(
        seen,
        vec![(c(0, 0, 1), 3), (c(1, 0, 1), 3), (c(1, 1, 1), 3), (c(0, 1, 1), 2)]
    );
}

#[test]
fn chunks_stand_32_voxels_apart() {
    assert_eq!(chunk_origin(c(0, 0, 0)), (0, 0, 0));
    assert_eq!(chunk_origin(c(1, -2, 3)), (32, -64, 96));
    assert_eq!(chunk_origin(c(i32::MAX, i32::MIN, 0)), (68719476704, -68719476736, 0));
}

#[test]
fn observer_chunk_is_biased_by_half_a_chunk() {
    assert_eq!(world_to_chunk(c(0, 0, 0)), c(-1, -1, -1));
    assert_eq!(world_to_chunk(c(15, 16, 47)), c(-1, 0, 0));
    assert_eq!(world_to_chunk(c(48, -16, -17)), c(1, -1, -2));
    assert_eq!(world_to_chunk(c(32, 0, 0)), c(0, -1, -1));
    assert_eq!(world_to_chunk(c(i32::MAX, i32::MIN, 0)), c(67108863, -67108865, -1));
}

#[test]
fn observer_at_the_world_origin_wants_the_box_round_its_chunk() {
    let mut global = GlobalScannerDesiredChunks::<DataScanner>::new();
    let here = world_to_chunk(c(0, 0, 0));
    let events =
        scan(true, false, &vec![(Scanner::<DataScanner>::new(1, Some(1)), ChunkPos(here))], &mut global);
    assert_eq!(events.gained.len(), 64);
    assert!(events.gained.iter().all(|e| {
        (-3..=0).contains(&e.chunk.x) && (-3..=0).contains(&e.chunk.y) && (-3..=0).contains(&e.chunk.z)
    }));
    let there = world_to_chunk(c(32, 0, 0));
    let events =
        scan(true, false, &vec![(Scanner::<DataScanner>::new(1, Some(1)), ChunkPos(there))], &mut global);
    assert_eq!(events.gained.len(), 16);
    assert_eq!(events.lost.len(), 16);
    assert!(events.gained.iter().all(|e| e.chunk.x == 1));
    assert!(events.lost.iter().all(|e| e.chunk.x == -3));
}
