use rusted::world::direction::{Direction, DirectionalMap};
use rusted::world::position::{
    ChunkPosition, Position, TilePosition, WorldPosition, CHUNK_SIZE, TILE_SIZE,
};

fn p(x: i32, y: i32) -> Position {
    Position::new(x, y)
}

#[test]
fn negative_tile_maps_to_previous_chunk() {
    assert_eq!(TilePosition::to_chunk(p(-1, -1)), p(-1, -1));
    assert_eq!(TilePosition::to_tile_in_chunk(p(-1, -1)), p(31, 31));
    assert_eq!(TilePosition::to_chunk(p(-32, -33)), p(-1, -2));
    assert_eq!(TilePosition::to_tile_in_chunk(p(-32, -33)), p(0, 31));
}

#[test]
fn positive_tile_maps_by_floor_division() {
    assert_eq!(TilePosition::to_chunk(p(33, 64)), p(1, 2));
    assert_eq!(TilePosition::to_tile_in_chunk(p(33, 64)), p(1, 0));
    assert_eq!(TilePosition::to_chunk(p(31, 0)), p(0, 0));
}

#[test]
fn extreme_tiles_stay_in_range() {
    let lo = TilePosition::to_tile_in_chunk(p(i32::MIN, i32::MAX));
    assert_eq!(lo, p(0, 31));
    assert_eq!(TilePosition::to_chunk(p(i32::MIN, i32::MAX)), p(-67108864, 67108863));
}

#[test]
fn chunk_tile_round_trip() {
    for cx in [-3, -1, 0, 2] {
        for cy in [-2, 0, 5] {
            let c = p(cx, cy);
            let base = ChunkPosition::to_tile(c);
            for lx in [0, 1, 17, 31] {
                for ly in [0, 30, 31] {
                    let t = base.plus(p(lx, ly));
                    assert_eq!(TilePosition::to_chunk(t), c);
                    assert_eq!(TilePosition::to_tile_in_chunk(t), p(lx, ly));
                }
            }
        }
    }
}

#[test]
fn chunk_to_tile_scales_by_chunk_size() {
    assert_eq!(ChunkPosition::to_tile(p(-2, 3)), p(-2 * CHUNK_SIZE, 3 * CHUNK_SIZE));
    assert_eq!(ChunkPosition::to_tile(p(-2, 3)), p(-64, 96));
}

#[test]
fn world_conversions() {
    assert_eq!(TilePosition::to_world(p(2, -3)), p(64, -96));
    assert_eq!(ChunkPosition::to_world(p(1, -1)), p(1024, -1024));
    assert_eq!(WorldPosition::to_tile(p(-1, 63)), p(-1, 1));
    assert_eq!(WorldPosition::to_tile(p(-32, -33)), p(-1, -2));
    assert_eq!(WorldPosition::to_chunk(p(-1, 1024)), p(-1, 1));
    assert_eq!(TILE_SIZE, 32);
}

#[test]
fn screen_conversions() {
    assert_eq!(WorldPosition::to_screen(p(100, 50), p(20, 10), 2), p(160, 80));
    assert_eq!(TilePosition::to_screen(p(1, 1), p(0, 0), 1), p(32, 32));
    assert_eq!(ChunkPosition::to_screen(p(1, 0), p(24, -8), 1), p(1000, 8));
}

#[test]
fn position_metrics() {
    assert_eq!(p(3, -7).dist(p(-1, -2)), 5);
    assert_eq!(p(0, 0).dist(p(0, 0)), 0);
    assert_eq!(p(i32::MIN, 0).dist(p(i32::MAX, 0)), 4294967295);
    assert!(p(2, 2).is_adjacent(p(3, 1)));
    assert!(p(2, 2).is_adjacent(p(2, 2)));
    assert!(!p(2, 2).is_adjacent(p(4, 2)));
    assert_eq!(p(-3, 4).abs(), p(3, 4));
    assert_eq!(p(-3, 0).sgn(), p(-1, 0));
    assert_eq!(p(9, 2).minus(p(4, 5)), p(5, -3));
    assert_eq!(p(9, 2).scale(-2), p(-18, -4));
    assert_eq!(Position::default(), p(0, 0));
}

#[test]
fn directions_round_trip_through_index() {
    for i in 0..8usize {
        let d = Direction::from_index(i);
        assert_eq!(d.to_index(), i);
    }
    assert_eq!(Direction::north().to_position(), p(0, -1));
    assert_eq!(Direction::south_east().to_position(), p(1, 1));
    assert_eq!(Direction::north_west().to_index(), 7);
    assert_eq!(Direction::east().invert(), Direction::west());
    assert_eq!(Direction::new(5, -3).to_position(), p(1, -1));
    assert_eq!(Direction::new(0, 0).to_position(), p(0, 0));
}

#[test]
fn directional_map_get_and_set() {
    let mut m = DirectionalMap::new(0u8);
    m.set(Direction::south_west(), 7);
    assert_eq!(*m.get(Direction::south_west()), 7);
    assert_eq!(*m.south_west(), 7);
    assert_eq!(*m.north(), 0);
    assert_eq!(*m.get(Direction::east()), 0);
}
