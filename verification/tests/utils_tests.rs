use new_voxel_testing::math::IVec3;
use new_voxel_testing::utils::{
    generate_indices, get_edging_chunk, get_pos_from_vertex_u32, index_to_ivec3,
    index_to_ivec3_bounds, index_to_ivec3_bounds_reverse, is_on_edge, make_vertex_u32,
    vec3_to_index,
};

#[test]
fn index_functions() {
    for z in 0..32 {
        for y in 0..32 {
            for x in 0..32 {
                let pos = IVec3::new(x, y, z);
                let index = vec3_to_index(pos, 32);
                let from_index = index_to_ivec3_bounds(index as i32, 32);
                assert_eq!(pos, from_index);
            }
        }
    }
}

#[test]
fn index_roundtrip_through_chunk_index() {
    for i in 0..32768 {
        let pos = index_to_ivec3(i);
        assert_eq!(vec3_to_index(pos, 32), i as usize);
        assert_eq!(index_to_ivec3(vec3_to_index(pos, 32) as i32), pos);
    }
}

#[test]
fn index_layout_is_x_then_y_then_z() {
    assert_eq!(vec3_to_index(IVec3::new(1, 0, 0), 32), 1);
    assert_eq!(vec3_to_index(IVec3::new(0, 1, 0), 32), 32);
    assert_eq!(vec3_to_index(IVec3::new(0, 0, 1), 32), 1024);
    assert_eq!(vec3_to_index(IVec3::new(3, 4, 5), 32), 3 + 4 * 32 + 5 * 1024);
    assert_eq!(index_to_ivec3(5251), IVec3::new(3, 4, 5));
    assert_eq!(index_to_ivec3_bounds(14, 3), IVec3::new(2, 1, 1));
    assert_eq!(index_to_ivec3_bounds_reverse(14, 3), IVec3::new(1, 1, 2));
    assert_eq!(vec3_to_index(IVec3::new(1, 1, 1), 3), 13);
}

#[test]
fn vertex_roundtrip() {
    for &(x, y, z) in &[(0, 0, 0), (32, 32, 32), (1, 2, 3), (63, 0, 63), (17, 33, 5)] {
        for ao in 0..8u32 {
            for normal in 0..6u32 {
                for &block in &[0u32, 1, 7, 255] {
                    let pos = IVec3::new(x, y, z);
                    let vertex = make_vertex_u32(pos, ao, normal, block);
                    assert_eq!(get_pos_from_vertex_u32(vertex), pos);
                    assert_eq!((vertex >> 18) & 7, ao);
                    assert_eq!((vertex >> 21) & 7, normal);
                    assert_eq!(vertex >> 24, block);
                }
            }
        }
    }
}

#[test]
fn vertex_layout() {
    assert_eq!(make_vertex_u32(IVec3::new(1, 0, 0), 0, 0, 0), 1);
    assert_eq!(make_vertex_u32(IVec3::new(0, 1, 0), 0, 0, 0), 1 << 6);
    assert_eq!(make_vertex_u32(IVec3::new(0, 0, 1), 0, 0, 0), 1 << 12);
    assert_eq!(make_vertex_u32(IVec3::new(0, 0, 0), 1, 0, 0), 1 << 18);
    assert_eq!(make_vertex_u32(IVec3::new(0, 0, 0), 0, 1, 0), 1 << 21);
    assert_eq!(make_vertex_u32(IVec3::new(0, 0, 0), 0, 0, 1), 1 << 24);
    assert_eq!(make_vertex_u32(IVec3::new(32, 31, 2), 3, 5, 0x1ff), 0xffac27e0);
}

#[test]
fn block_type_keeps_its_low_byte() {
    let vertex = make_vertex_u32(IVec3::new(0, 0, 0), 0, 0, 0x1234);
    assert_eq!(vertex >> 24, 0x34);
}

#[test]
fn indices_follow_the_quad_pattern() {
    assert_eq!(generate_indices(0), Vec::<u32>::new());
    assert_eq!(generate_indices(3), Vec::<u32>::new());
    assert_eq!(generate_indices(4), vec![0, 1, 2, 0, 2, 3]);
    assert_eq!(generate_indices(9), vec![0, 1, 2, 0, 2, 3, 4, 5, 6, 4, 6, 7]);
    let many = generate_indices(24);
    assert_eq!(many.len(), 36);
    assert_eq!(&many[30..], &[20, 21, 22, 20, 22, 23]);
}

#[test]
fn edge_detection() {
    assert!(is_on_edge(IVec3::new(0, 5, 5)));
    assert!(is_on_edge(IVec3::new(5, 32, 5)));
    assert!(is_on_edge(IVec3::new(5, 5, 0)));
    assert!(!is_on_edge(IVec3::new(5, 31, 5)));
    assert!(!is_on_edge(IVec3::new(1, 1, 1)));
}

#[test]
fn edging_chunk_of_inner_voxel_is_none() {
    assert_eq!(get_edging_chunk(IVec3::new(1, 1, 1)), None);
    assert_eq!(get_edging_chunk(IVec3::new(30, 15, 2)), None);
    assert_eq!(get_edging_chunk(IVec3::new(32, 15, 2)), None);
}

#[test]
fn edging_chunk_of_boundary_voxels() {
    assert_eq!(get_edging_chunk(IVec3::new(0, 5, 5)), Some(IVec3::new(-1, 0, 0)));
    assert_eq!(get_edging_chunk(IVec3::new(31, 5, 5)), Some(IVec3::new(1, 0, 0)));
    assert_eq!(get_edging_chunk(IVec3::new(5, 0, 5)), Some(IVec3::new(0, -1, 0)));
    assert_eq!(get_edging_chunk(IVec3::new(5, 31, 5)), Some(IVec3::new(0, 1, 0)));
    assert_eq!(get_edging_chunk(IVec3::new(5, 5, 0)), Some(IVec3::new(0, 0, -1)));
    assert_eq!(get_edging_chunk(IVec3::new(5, 5, 31)), Some(IVec3::new(0, 0, 1)));
    assert_eq!(get_edging_chunk(IVec3::new(0, 0, 0)), Some(IVec3::new(-1, -1, -1)));
    assert_eq!(get_edging_chunk(IVec3::new(31, 0, 31)), Some(IVec3::new(1, -1, 1)));
}
