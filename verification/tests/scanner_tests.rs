use new_voxel_testing::math::IVec3;
use new_voxel_testing::scanner::{
    iter_chunks_around, scan, ChunkPos, DataScanner, GlobalScannerDesiredChunks, MeshScanner,
    Scanner,
};
use std::collections::{HashMap, HashSet};

fn at(x: i32, y: i32, z: i32) -> ChunkPos {
    ChunkPos(IVec3::new(x, y, z))
}

fn key(c: IVec3) -> (i32, i32, i32) {
    (c.x, c.y, c.z)
}

#[test]
fn box_reaches_one_further_down_than_up() {
    let chunks = iter_chunks_around(IVec3::new(10, 20, 30), 0, 0);
    let expected: Vec<IVec3> = vec![
        IVec3::new(9, 19, 29),
        IVec3::new(9, 19, 30),
        IVec3::new(9, 20, 29),
        IVec3::new(9, 20, 30),
        IVec3::new(10, 19, 29),
        IVec3::new(10, 19, 30),
        IVec3::new(10, 20, 29),
        IVec3::new(10, 20, 30),
    ];
    assert_eq!(chunks, expected);
}

#[test]
fn box_has_independent_radii() {
    let chunks = iter_chunks_around(IVec3::new(0, 0, 0), 2, 0);
    assert_eq!(chunks.len(), 6 * 2 * 6);
    let set: HashSet<(i32, i32, i32)> = chunks.iter().map(|c| key(*c)).collect();
    assert_eq!(set.len(), chunks.len());
    for x in -3..3 {
        for y in -1..1 {
            for z in -3..3 {
                assert!(set.contains(&(x, y, z)));
            }
        }
    }
}

#[test]
fn scanner_radius_defaults() {
    let scanner = Scanner::<DataScanner>::new(4, None);
    assert_eq!(scanner.horizontal_radius(), 4);
    assert_eq!(scanner.vertical_radius(), 4);
    let scanner = Scanner::<MeshScanner>::new(4, Some(1));
    assert_eq!(scanner.horizontal_radius(), 4);
    assert_eq!(scanner.vertical_radius(), 1);
}

#[test]
fn first_scan_gains_the_whole_box() {
    let mut global = GlobalScannerDesiredChunks::<DataScanner>::new();
    let scanners = vec![(Scanner::<DataScanner>::new(1, Some(1)), at(0, 0, 0))];
    let events = scan(true, false, &scanners, &mut global);
    assert_eq!(events.gained.len(), 64);
    assert_eq!(events.lost.len(), 0);
    let gained: HashSet<(i32, i32, i32)> = events.gained.iter().map(|e| key(e.chunk)).collect();
    assert_eq!(gained.len(), 64);
    for x in -2..2 {
        for y in -2..2 {
            for z in -2..2 {
                assert!(gained.contains(&(x, y, z)));
                assert!(global.chunks.contains(IVec3::new(x, y, z)));
            }
        }
    }
    assert_eq!(global.chunks.len(), 64);
}

#[test]
fn moving_one_chunk_swaps_one_slice() {
    let mut global = GlobalScannerDesiredChunks::<DataScanner>::new();
    let scanner = Scanner::<DataScanner>::new(1, Some(1));
    scan(true, false, &vec![(scanner, at(0, 0, 0))], &mut global);
    let scanner = Scanner::<DataScanner>::new(1, Some(1));
    let events = scan(true, false, &vec![(scanner, at(1, 0, 0))], &mut global);
    assert_eq!(events.gained.len(), 16);
    assert_eq!(events.lost.len(), 16);
    assert!(events.gained.iter().all(|e| e.chunk.x == 2));
    assert!(events.lost.iter().all(|e| e.chunk.x == -2));
    assert_eq!(global.chunks.len(), 64);
    assert!(global.chunks.contains(IVec3::new(2, 0, 0)));
    assert!(!global.chunks.contains(IVec3::new(-2, 0, 0)));
}

#[test]
fn overlapping_scanners_gain_each_chunk_once() {
    let mut global = GlobalScannerDesiredChunks::<MeshScanner>::new();
    let scanners = vec![
        (Scanner::<MeshScanner>::new(1, Some(0)), at(0, 0, 0)),
        (Scanner::<MeshScanner>::new(1, Some(0)), at(2, 0, 0)),
    ];
    let events = scan(true, false, &scanners, &mut global);
    let gained: HashSet<(i32, i32, i32)> = events.gained.iter().map(|e| key(e.chunk)).collect();
    assert_eq!(gained.len(), events.gained.len());
    assert_eq!(events.gained.len(), 6 * 2 * 4);
    assert_eq!(events.lost.len(), 0);
}

#[test]
fn steady_state_tells_nothing() {
    let mut global = GlobalScannerDesiredChunks::<DataScanner>::new();
    let scanners = vec![(Scanner::<DataScanner>::new(2, None), at(3, -4, 5))];
    scan(true, false, &scanners, &mut global);
    let again = scan(true, false, &scanners, &mut global);
    assert_eq!(again.gained.len(), 0);
    assert_eq!(again.lost.len(), 0);
    let skipped = scan(false, false, &scanners, &mut global);
    assert_eq!(skipped.gained.len(), 0);
    assert_eq!(skipped.lost.len(), 0);
    assert_eq!(global.chunks.len(), 6 * 6 * 6);
}

#[test]
fn skipped_scan_leaves_the_global_set() {
    let mut global = GlobalScannerDesiredChunks::<DataScanner>::new();
    scan(true, false, &vec![(Scanner::<DataScanner>::new(0, None), at(0, 0, 0))], &mut global);
    let moved = vec![(Scanner::<DataScanner>::new(0, None), at(9, 9, 9))];
    let events = scan(false, false, &moved, &mut global);
    assert_eq!(events.gained.len(), 0);
    assert_eq!(events.lost.len(), 0);
    assert!(global.chunks.contains(IVec3::new(0, 0, 0)));
    assert!(!global.chunks.contains(IVec3::new(9, 9, 9)));
}

#[test]
fn removing_a_scanner_loses_its_contribution() {
    let mut global = GlobalScannerDesiredChunks::<DataScanner>::new();
    let both = vec![
        (Scanner::<DataScanner>::new(0, None), at(0, 0, 0)),
        (Scanner::<DataScanner>::new(0, None), at(1, 0, 0)),
    ];
    let first = scan(true, false, &both, &mut global);
    assert_eq!(first.gained.len(), 12);
    let one = vec![(Scanner::<DataScanner>::new(0, None), at(0, 0, 0))];
    let events = scan(false, true, &one, &mut global);
    assert_eq!(events.gained.len(), 0);
    assert_eq!(events.lost.len(), 4);
    assert!(events.lost.iter().all(|e| e.chunk.x == 1));
    let none: Vec<(Scanner<DataScanner>, ChunkPos)> = vec![];
    let events = scan(false, true, &none, &mut global);
    assert_eq!(events.lost.len(), 8);
    assert_eq!(global.chunks.len(), 0);
}

#[test]
fn gained_and_lost_balance_over_a_script() {
    let script: Vec<Vec<(u8, u8, (i32, i32, i32))>> = vec![
        vec![(1, 1, (0, 0, 0))],
        vec![(1, 1, (1, 0, 0))],
        vec![(1, 1, (1, 0, 0)), (0, 2, (4, 4, 4))],
        vec![(0, 2, (4, 4, 4))],
        vec![(0, 2, (0, 1, 0)), (2, 0, (0, 0, 0))],
        vec![],
        vec![(1, 0, (-3, 2, 7))],
    ];
    let mut global = GlobalScannerDesiredChunks::<DataScanner>::new();
    let mut net: HashMap<(i32, i32, i32), i32> = HashMap::new();
    for observers in &script {
        let scanners: Vec<(Scanner<DataScanner>, ChunkPos)> = observers
            .iter()
            .map(|&(h, v, (x, y, z))| (Scanner::new(h, Some(v)), at(x, y, z)))
            .collect();
        let events = scan(true, true, &scanners, &mut global);
        for e in &events.gained {
            *net.entry(key(e.chunk)).or_insert(0) += 1;
        }
        for e in &events.lost {
            *net.entry(key(e.chunk)).or_insert(0) -= 1;
        }
        for (&(x, y, z), &count) in &net {
            let wanted = global.chunks.contains(IVec3::new(x, y, z));
            assert_eq!(count, if wanted { 1 } else { 0 });
        }
    }
    assert_eq!(global.chunks.len(), 4 * 2 * 4);
    assert_eq!(net.values().filter(|&&count| count == 1).count(), 4 * 2 * 4);
}
