use rusted::systems::ai_system::{Ai, AiSystem, ChunkCache, Pathing};
use rusted::systems::chunk_system::{ChunkLoader, ChunkSystem};
use rusted::world::level::Level;
use rusted::world::position::Position;
use rusted::world::tile::{Tile, IMPASSABLE_COST};

fn p(x: i32, y: i32) -> Position {
    Position::new(x, y)
}

fn open_ground(_seed: i32, _x: i32, _y: i32) -> bool {
    false
}

fn open_level(range: i32) -> Level {
    let mut level = Level::new(0);
    ChunkSystem::run(&mut level, &vec![(p(0, 0), ChunkLoader { range })], &open_ground);
    level
}

fn cheb(a: Position, b: Position) -> i64 {
    a.dist(b)
}

#[test]
fn path_on_open_ground_stops_next_to_goal() {
    let mut level = Level::new(0);
    level.load_chunk(p(0, 0), &open_ground);
    let mut ai = Ai::default();
    assert!(ai.find_path(p(0, 0), p(5, 0), &level));
    let pathing = ai.pathing.as_ref().unwrap();
    let path = &pathing.path;
    assert_eq!(pathing.goal_tile_pos, p(5, 0));
    assert_eq!(pathing.cur, 0);
    let last = *path.last().unwrap();
    assert!(cheb(last, p(5, 0)) <= 1);
    assert_eq!(path.len(), 4);
    assert_eq!(pathing.cost, 4);
    let mut prev = p(0, 0);
    for q in path {
        assert_eq!(cheb(prev, *q), 1);
        prev = *q;
    }
    assert_ne!(path[0], p(0, 0));
}

#[test]
fn start_next_to_goal_gives_empty_route() {
    let level = open_level(0);
    let mut ai = Ai::default();
    assert!(ai.find_path(p(3, 3), p(4, 4), &level));
    assert!(ai.pathing.as_ref().unwrap().path.is_empty());
    assert_eq!(ai.next_pos(), None);
    assert!(!ai.has_path());
}

#[test]
fn search_without_resident_chunks_fails() {
    let level = Level::new(0);
    let mut ai = Ai::default();
    ai.pathing = Some(Pathing::new(vec![p(1, 0)], p(9, 9), 1));
    assert!(!ai.find_path(p(0, 0), p(10, 0), &level));
    assert!(!ai.has_path());
}

#[test]
fn search_goes_around_rock() {
    let mut level = Level::new(0);
    let wall = |_s: i32, x: i32, y: i32| x == 3 && (-1..=1).contains(&y);
    for cx in -1..=1 {
        for cy in -1..=1 {
            level.load_chunk(p(cx, cy), &wall);
        }
    }
    let mut ai = Ai::default();
    assert!(ai.find_path(p(0, 0), p(7, 0), &level));
    let path = &ai.pathing.as_ref().unwrap().path;
    for q in path {
        assert!(!level.get_loaded_tile(*q).unwrap().blocked);
    }
    assert!(cheb(*path.last().unwrap(), p(7, 0)) <= 1);
}

#[test]
fn pathing_hands_out_tiles_in_order() {
    let mut pathing = Pathing::new(vec![p(1, 0), p(2, 0)], p(3, 0), 2);
    assert_eq!(pathing.next(), Some(p(1, 0)));
    assert_eq!(pathing.next(), Some(p(2, 0)));
    assert_eq!(pathing.next(), None);
    assert_eq!(pathing.cur, 2);
}

#[test]
fn exhausted_route_is_dropped() {
    let mut ai = Ai::default();
    assert!(!ai.has_path());
    assert_eq!(ai.next_pos(), None);
    ai.pathing = Some(Pathing::new(vec![p(1, 1)], p(2, 2), 1));
    assert_eq!(ai.next_pos(), Some(p(1, 1)));
    assert!(ai.has_path());
    assert_eq!(ai.next_pos(), None);
    assert!(!ai.has_path());
}

#[test]
fn agent_steps_toward_far_goal() {
    let level = open_level(1);
    let mut ai = Ai::default();
    let delta = AiSystem::step(&mut ai, p(0, 0), p(10, 0), &level);
    assert_eq!(delta.x, 1);
    assert!((-1..=1).contains(&delta.y));
    let pathing = ai.pathing.as_ref().unwrap();
    assert_eq!(pathing.cur, 1);
    assert_eq!(delta, pathing.path[0]);
}

#[test]
fn moved_goal_forces_new_search() {
    let level = open_level(1);
    let mut ai = Ai::default();
    AiSystem::step(&mut ai, p(0, 0), p(10, 0), &level);
    assert_eq!(ai.pathing.as_ref().unwrap().goal_tile_pos, p(10, 0));
    // the goal moves; the next tick searches again before moving
    let delta = AiSystem::step(&mut ai, p(1, 0), p(1, 10), &level);
    let pathing = ai.pathing.as_ref().unwrap();
    assert_eq!(pathing.goal_tile_pos, p(1, 10));
    assert_eq!(pathing.cur, 1);
    assert_eq!(delta.y, 1);
    assert_eq!(delta, pathing.path[0].minus(p(1, 0)));
    assert!(cheb(*pathing.path.last().unwrap(), p(1, 10)) <= 1);
}

#[test]
fn close_agent_stays_put_even_with_a_route() {
    let level = open_level(1);
    for goal in [p(3, 0), p(2, 2), p(-3, -3), p(0, 1)] {
        let mut ai = Ai::default();
        ai.pathing = Some(Pathing::new(vec![p(1, 0), p(2, 0)], goal, 2));
        let delta = AiSystem::step(&mut ai, p(0, 0), goal, &level);
        assert_eq!(delta, p(0, 0));
    }
}

#[test]
fn unchanged_goal_keeps_route() {
    let level = open_level(1);
    let mut ai = Ai::default();
    ai.pathing = Some(Pathing::new(vec![p(1, 1), p(2, 2), p(3, 3)], p(9, 9), 3));
    let delta = AiSystem::step(&mut ai, p(0, 0), p(9, 9), &level);
    assert_eq!(delta, p(1, 1));
    assert_eq!(ai.pathing.as_ref().unwrap().cur, 1);
    assert_eq!(ai.pathing.as_ref().unwrap().path.len(), 3);
}

#[test]
fn search_reached_rule() {
    assert!(AiSystem::is_reached(p(4, 0), p(5, 0)));
    assert!(AiSystem::is_reached(p(5, 0), p(5, 0)));
    assert!(!AiSystem::is_reached(p(3, 0), p(5, 0)));
    assert_eq!(AiSystem::unit_step(p(0, 0), p(-5, 3)), p(-1, 1));
    assert_eq!(AiSystem::NAV_RANGE, 3);
}

#[test]
fn cache_window_limits() {
    let level = open_level(4);
    let mut cache = ChunkCache::new(p(0, 0), &level);
    assert_eq!(cache.offset_chunk_pos, p(-3, -3));
    assert!(cache.in_range(p(6, 0)));
    assert!(!cache.in_range(p(7, 0)));
    assert!(cache.get_chunk(p(3, 3)).is_some());
    assert_eq!(cache.get_chunk(p(3, 3)).unwrap().pos, p(0, 0));
    assert!(cache.get_chunk(p(-1, 3)).is_none());
    assert!(cache.get_chunk(p(7, 3)).is_none());
    // chunk (-4, 0) is resident but outside the window
    assert!(level.is_loaded(&p(-4, 0)));
}

#[test]
fn cache_neighbours_and_costs() {
    let mut level = Level::new(0);
    let rock_east = |_s: i32, x: i32, y: i32| x == 6 && y == 5;
    level.load_chunk(p(0, 0), &rock_east);
    let mut cache = ChunkCache::new(p(0, 0), &level);
    let inner = cache.get_tile_neighbours(p(5, 5));
    assert_eq!(inner.len(), 8);
    assert_eq!(inner[0].1, p(5, 4));
    assert_eq!(inner[2], (Tile::rock(), p(6, 5)));
    let corner = cache.get_tile_neighbours(p(0, 0));
    assert_eq!(corner.len(), 3);
    let succ = cache.successors(p(5, 5));
    assert!(succ.contains(&(p(6, 5), IMPASSABLE_COST as i64)));
    assert!(succ.contains(&(p(4, 4), 1)));
}

#[test]
fn heuristic_measures_to_the_stopping_tiles() {
    assert_eq!(AiSystem::heuristic(p(0, 0), p(5, 0)), 4);
    assert_eq!(AiSystem::heuristic(p(4, 1), p(5, 0)), 0);
    assert_eq!(AiSystem::heuristic(p(5, 0), p(5, 0)), 0);
    assert_eq!(AiSystem::heuristic(p(-3, 7), p(2, 0)), 6);
}

#[test]
fn route_cost_is_the_sum_of_its_tiles() {
    let mut level = Level::new(0);
    let wall = |_s: i32, x: i32, _y: i32| x == 3;
    for cx in -1..=1 {
        for cy in -1..=1 {
            level.load_chunk(p(cx, cy), &wall);
        }
    }
    let mut ai = Ai::default();
    assert!(ai.find_path(p(0, 0), p(6, 0), &level));
    let pathing = ai.pathing.as_ref().unwrap();
    let sum: i64 = pathing
        .path
        .iter()
        .map(|q| level.get_loaded_tile(*q).unwrap().traversal_cost as i64)
        .sum();
    assert_eq!(pathing.cost, sum);
    // the wall spans the whole window, so the cheapest route crosses it once
    assert_eq!(pathing.cost, IMPASSABLE_COST as i64 + 4);
    assert_eq!(pathing.path.len(), 5);
}

#[test]
fn cheaper_detour_is_preferred() {
    let mut level = Level::new(0);
    let short_wall = |_s: i32, x: i32, y: i32| x == 3 && (-2..=2).contains(&y);
    level.load_chunk(p(0, 0), &short_wall);
    level.load_chunk(p(0, -1), &short_wall);
    let mut ai = Ai::default();
    assert!(ai.find_path(p(0, 0), p(6, 0), &level));
    let pathing = ai.pathing.as_ref().unwrap();
    assert!(pathing.cost < IMPASSABLE_COST as i64);
    for q in &pathing.path {
        assert!(!level.get_loaded_tile(*q).unwrap().blocked);
    }
}
