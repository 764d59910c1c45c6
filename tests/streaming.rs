use std::collections::HashSet;

use noise::{NoiseFn, Perlin, Seedable};
use rusted::systems::chunk_system::{ChunkLoader, ChunkSystem};
use rusted::world::level::Level;
use rusted::world::position::Position;

fn p(x: i32, y: i32) -> Position {
    Position::new(x, y)
}

fn perlin_rock(seed: i32, x: i32, y: i32) -> bool {
    let perlin = Perlin::new().set_seed(seed as u32);
    perlin.get([x as f64 / 15.0, y as f64 / 15.0]) > 0.5
}

fn loaded_set(level: &Level) -> HashSet<(i32, i32)> {
    level.loaded_positions().iter().map(|q| (q.x, q.y)).collect()
}

fn square(cx: i32, cy: i32, r: i32) -> HashSet<(i32, i32)> {
    let mut s = HashSet::new();
    for x in (cx - r)..=(cx + r) {
        for y in (cy - r)..=(cy + r) {
            s.insert((x, y));
        }
    }
    s
}

fn keys(v: &[Position]) -> HashSet<(i32, i32)> {
    v.iter().map(|q| (q.x, q.y)).collect()
}

#[test]
fn one_loader_range_one_loads_nine_chunks() {
    let mut level = Level::new(42);
    let loaders = vec![(p(0, 0), ChunkLoader { range: 1 })];
    let (loads, unloads) = ChunkSystem::run(&mut level, &loaders, &perlin_rock);
    assert_eq!(level.loaded_count(), 9);
    assert!(level.is_loaded(&p(0, 0)));
    assert_eq!(loaded_set(&level), square(0, 0, 1));
    assert_eq!(loads.len(), 9);
    assert!(unloads.is_empty());

    // move the loader into chunk (1, 0)
    let moved = vec![(p(32, 0), ChunkLoader { range: 1 })];
    let (loads, unloads) = ChunkSystem::run(&mut level, &moved, &perlin_rock);
    assert_eq!(loaded_set(&level), square(1, 0, 1));
    assert_eq!(keys(&loads), [(2, -1), (2, 0), (2, 1)].into_iter().collect());
    assert_eq!(keys(&unloads), [(-1, -1), (-1, 0), (-1, 1)].into_iter().collect());
    assert_eq!(loads.len(), 3);
    assert_eq!(unloads.len(), 3);
}

#[test]
fn window_size_follows_range() {
    for r in 0..4 {
        let mut level = Level::new(7);
        let loaders = vec![(p(-40, 100), ChunkLoader { range: r })];
        ChunkSystem::run(&mut level, &loaders, &perlin_rock);
        let n = (2 * r + 1) as usize;
        assert_eq!(level.loaded_count(), n * n);
        assert_eq!(loaded_set(&level), square(-2, 3, r));
    }
}

#[test]
fn second_pass_changes_nothing() {
    let mut level = Level::new(42);
    let loaders = vec![
        (p(0, 0), ChunkLoader { range: 1 }),
        (p(70, -5), ChunkLoader { range: 2 }),
    ];
    ChunkSystem::run(&mut level, &loaders, &perlin_rock);
    let before = loaded_set(&level);
    let (loads, unloads) = ChunkSystem::run(&mut level, &loaders, &perlin_rock);
    assert!(loads.is_empty());
    assert!(unloads.is_empty());
    assert_eq!(loaded_set(&level), before);
}

#[test]
fn overlapping_loaders_union_their_squares() {
    let mut level = Level::new(1);
    let a = (p(0, 0), ChunkLoader { range: 1 });
    let b = (p(32, 0), ChunkLoader { range: 1 });
    ChunkSystem::run(&mut level, &vec![a, b], &perlin_rock);
    let expected: HashSet<(i32, i32)> = square(0, 0, 1).union(&square(1, 0, 1)).cloned().collect();
    assert_eq!(loaded_set(&level), expected);
    assert_eq!(level.loaded_count(), 12);
    // the order of the loaders does not matter
    let mut other = Level::new(1);
    ChunkSystem::run(&mut other, &vec![b, a], &perlin_rock);
    assert_eq!(loaded_set(&other), expected);
}

#[test]
fn no_loaders_unload_everything() {
    let mut level = Level::new(3);
    ChunkSystem::run(&mut level, &vec![(p(0, 0), ChunkLoader::default())], &perlin_rock);
    let (loads, unloads) = ChunkSystem::run(&mut level, &Vec::new(), &perlin_rock);
    assert!(loads.is_empty());
    assert_eq!(unloads.len(), 9);
    assert_eq!(level.loaded_count(), 0);
}

#[test]
fn negative_range_demands_nothing() {
    let mut level = Level::new(3);
    let loaders = vec![(p(0, 0), ChunkLoader { range: -1 })];
    let (loads, _) = ChunkSystem::run(&mut level, &loaders, &perlin_rock);
    assert!(loads.is_empty());
    assert!(!ChunkSystem::is_demanded(&loaders, p(0, 0)));
}

#[test]
fn demand_check() {
    let loaders = vec![(p(-1, 0), ChunkLoader { range: 2 })];
    assert!(ChunkSystem::is_demanded(&loaders, p(-3, 2)));
    assert!(ChunkSystem::is_demanded(&loaders, p(1, -2)));
    assert!(!ChunkSystem::is_demanded(&loaders, p(2, 0)));
    assert_eq!(ChunkLoader::default().range, 1);
}

#[test]
fn archived_chunks_come_back_unchanged() {
    let mut level = Level::new(42);
    let here = vec![(p(0, 0), ChunkLoader { range: 0 })];
    let there = vec![(p(320, 0), ChunkLoader { range: 0 })];
    ChunkSystem::run(&mut level, &here, &perlin_rock);
    let tiles = level.get_loaded_chunk(p(0, 0)).unwrap().tiles.clone();
    ChunkSystem::run(&mut level, &there, &perlin_rock);
    assert!(!level.is_loaded(&p(0, 0)));
    let all_rock = |_s: i32, _x: i32, _y: i32| true;
    ChunkSystem::run(&mut level, &here, &all_rock);
    assert_eq!(level.get_loaded_chunk(p(0, 0)).unwrap().tiles, tiles);
}
