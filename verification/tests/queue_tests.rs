use new_voxel_testing::chunk_map::ChunkMap;
use new_voxel_testing::chunk_queue::{closest_distance, queue_sort_key, ChunkQueue};
use new_voxel_testing::chunk_set::ChunkSet;
use new_voxel_testing::math::IVec3;
use new_voxel_testing::scanner::ChunkPos;

fn c(x: i32, y: i32, z: i32) -> IVec3 {
    IVec3::new(x, y, z)
}

fn queue_of(chunks: &[IVec3]) -> ChunkQueue {
    let mut queue = ChunkQueue::new();
    queue.extend(&chunks.to_vec());
    queue
}

#[test]
fn queue_keeps_insertion_order_and_drops_repeats() {
    let mut queue = ChunkQueue::new();
    assert_eq!(queue.len(), 0);
    assert!(queue.insert(c(1, 0, 0)));
    assert!(queue.insert(c(2, 0, 0)));
    assert!(!queue.insert(c(1, 0, 0)));
    assert!(queue.insert(c(0, 0, 3)));
    assert_eq!(queue.to_vec(), vec![c(1, 0, 0), c(2, 0, 0), c(0, 0, 3)]);
    assert_eq!(queue.len(), 3);
    assert_eq!(queue.get(1), Some(c(2, 0, 0)));
    assert_eq!(queue.get(3), None);
    queue.extend(&vec![c(5, 5, 5), c(2, 0, 0), c(5, 5, 5), c(-1, 0, 0)]);
    assert_eq!(
        queue.to_vec(),
        vec![c(1, 0, 0), c(2, 0, 0), c(0, 0, 3), c(5, 5, 5), c(-1, 0, 0)]
    );
}

#[test]
fn swap_remove_moves_the_last_chunk_into_the_gap() {
    let mut queue = queue_of(&[c(0, 0, 0), c(1, 0, 0), c(2, 0, 0), c(3, 0, 0)]);
    assert!(queue.swap_remove(c(1, 0, 0)));
    assert_eq!(queue.to_vec(), vec![c(0, 0, 0), c(3, 0, 0), c(2, 0, 0)]);
    assert!(!queue.swap_remove(c(9, 9, 9)));
    assert_eq!(queue.to_vec(), vec![c(0, 0, 0), c(3, 0, 0), c(2, 0, 0)]);
    assert!(queue.swap_remove(c(2, 0, 0)));
    assert_eq!(queue.to_vec(), vec![c(0, 0, 0), c(3, 0, 0)]);
    assert!(queue.swap_remove(c(0, 0, 0)));
    assert!(queue.swap_remove(c(3, 0, 0)));
    assert_eq!(queue.len(), 0);
}

#[test]
fn drain_takes_the_front() {
    let mut queue = queue_of(&[c(0, 0, 0), c(1, 0, 0), c(2, 0, 0), c(3, 0, 0)]);
    assert_eq!(queue.drain_front(0), vec![]);
    assert_eq!(queue.drain_front(3), vec![c(0, 0, 0), c(1, 0, 0), c(2, 0, 0)]);
    assert_eq!(queue.to_vec(), vec![c(3, 0, 0)]);
    assert_eq!(queue.drain_front(1), vec![c(3, 0, 0)]);
    assert_eq!(queue.len(), 0);
}

#[test]
fn sort_is_by_distance_to_the_nearest_observer() {
    let observers = vec![ChunkPos(c(0, 0, 0)), ChunkPos(c(10, 0, 0))];
    let mut queue = queue_of(&[c(5, 0, 0), c(9, 0, 0), c(0, 2, 0), c(10, 0, 0), c(-3, 0, 0)]);
    queue.sort_by_distance(&observers, false);
    assert_eq!(
        queue.to_vec(),
        vec![c(10, 0, 0), c(9, 0, 0), c(0, 2, 0), c(-3, 0, 0), c(5, 0, 0)]
    );
    queue.sort_by_distance(&observers, true);
    assert_eq!(
        queue.to_vec(),
        vec![c(5, 0, 0), c(-3, 0, 0), c(0, 2, 0), c(9, 0, 0), c(10, 0, 0)]
    );
}

#[test]
fn sort_keeps_the_order_of_chunks_at_the_same_distance() {
    let observers = vec![ChunkPos(c(0, 0, 0))];
    let ring = [c(0, 0, 1), c(1, 0, 0), c(0, -1, 0), c(-1, 0, 0), c(0, 1, 0), c(0, 0, -1)];
    let mut queue = queue_of(&[c(3, 0, 0)]);
    queue.extend(&ring.to_vec());
    queue.insert(c(0, 0, 0));
    queue.sort_by_distance(&observers, false);
    let mut expected = vec![c(0, 0, 0)];
    expected.extend_from_slice(&ring);
    expected.push(c(3, 0, 0));
    assert_eq!(queue.to_vec(), expected);
    queue.sort_by_distance(&observers, true);
    let mut expected = vec![c(3, 0, 0)];
    expected.extend_from_slice(&ring);
    expected.push(c(0, 0, 0));
    assert_eq!(queue.to_vec(), expected);
}

#[test]
fn distance_is_exact_for_far_chunks() {
    let far = c(i32::MAX, i32::MAX, i32::MAX);
    let other = ChunkPos(c(i32::MIN, i32::MIN, i32::MIN));
    let span = (i32::MAX as i128) - (i32::MIN as i128);
    assert_eq!(closest_distance(far, &vec![other]), 3 * span * span);
    assert_eq!(closest_distance(c(1, 2, 3), &vec![ChunkPos(c(4, 6, 3)), other]), 25);
    assert_eq!(closest_distance(c(1, 2, 3), &vec![]), i128::MAX);
    assert_eq!(queue_sort_key(&(1, 2, 3), &vec![ChunkPos(c(4, 6, 3))], false), 25);
    assert_eq!(queue_sort_key(&(1, 2, 3), &vec![ChunkPos(c(4, 6, 3))], true), -25);
    assert_eq!(far.distance_squared(other.0), 3 * span * span);
}

#[test]
fn vectors_add_where_the_sum_fits() {
    assert_eq!(c(1, 2, 3).add(c(-4, 5, 6)), c(-3, 7, 9));
    assert_eq!(c(1, 2, 3).checked_add(c(-4, 5, 6)), Some(c(-3, 7, 9)));
    assert_eq!(c(i32::MAX, 0, 0).checked_add(c(1, 0, 0)), None);
    assert_eq!(c(0, i32::MIN, 0).checked_add(c(0, -1, 0)), None);
    assert_eq!(c(0, 0, i32::MAX).checked_add(c(0, 0, -1)), Some(c(0, 0, i32::MAX - 1)));
    assert_eq!(c(1, 9, 3).min(c(2, 0, 3)), c(1, 0, 3));
    assert_eq!(c(1, 9, 3).max(c(2, 0, 3)), c(2, 9, 3));
    assert_eq!(IVec3::splat(7), c(7, 7, 7));
}

#[test]
fn chunk_set_holds_each_point_once() {
    let mut set = ChunkSet::new();
    assert!(set.insert(c(1, -2, 3)));
    assert!(!set.insert(c(1, -2, 3)));
    assert!(set.insert(c(i32::MIN, i32::MAX, 0)));
    assert!(set.insert(c(3, -2, 1)));
    assert_eq!(set.len(), 3);
    assert!(set.contains(c(i32::MIN, i32::MAX, 0)));
    assert!(!set.contains(c(i32::MAX, i32::MIN, 0)));
    assert!(set.remove(c(1, -2, 3)));
    assert!(!set.remove(c(1, -2, 3)));
    let mut points = set.to_vec();
    points.sort_by_key(|p| (p.x, p.y, p.z));
    assert_eq!(points, vec![c(i32::MIN, i32::MAX, 0), c(3, -2, 1)]);
    let mut other = ChunkSet::new();
    other.extend(&vec![c(3, -2, 1), c(8, 8, 8)]);
    assert_eq!(set.difference(&other), vec![c(i32::MIN, i32::MAX, 0)]);
    assert_eq!(other.difference(&set), vec![c(8, 8, 8)]);
    set.clear();
    assert_eq!(set.len(), 0);
    assert!(!set.contains(c(3, -2, 1)));
}

#[test]
fn chunk_map_maps_points_to_values() {
    let mut map: ChunkMap<u32> = ChunkMap::new();
    assert_eq!(map.insert(c(0, 0, 0), 1), None);
    assert_eq!(map.insert(c(-1, -1, -1), 2), None);
    assert_eq!(map.insert(c(0, 0, 0), 3), Some(1));
    assert_eq!(map.len(), 2);
    assert_eq!(map.get(c(0, 0, 0)), Some(&3));
    assert_eq!(map.get(c(0, 0, 1)), None);
    assert!(map.contains_key(c(-1, -1, -1)));
    let mut keys = map.keys();
    keys.sort_by_key(|p| (p.x, p.y, p.z));
    assert_eq!(keys, vec![c(-1, -1, -1), c(0, 0, 0)]);
    assert_eq!(map.remove(c(-1, -1, -1)), Some(2));
    assert_eq!(map.remove(c(-1, -1, -1)), None);
    assert_eq!(map.len(), 1);
}
