use noise::{NoiseFn, Perlin, Seedable};
use rusted::objects::sprite_atlas::SpriteId;
use rusted::objects::sprite_set::{TileSpriteSet, WallTileSpriteSet};
use rusted::world::chunk::{LoadedChunk, UnloadedChunk, CHUNK_TILES};
use rusted::world::level::Level;
use rusted::world::position::Position;
use rusted::world::tile::{Tile, TileType, IMPASSABLE_COST};

fn p(x: i32, y: i32) -> Position {
    Position::new(x, y)
}

fn perlin_rock(seed: i32, x: i32, y: i32) -> bool {
    let perlin = Perlin::new().set_seed(seed as u32);
    perlin.get([x as f64 / 15.0, y as f64 / 15.0]) > 0.5
}

fn open_ground(_seed: i32, _x: i32, _y: i32) -> bool {
    false
}

#[test]
fn tile_kinds() {
    let rock = Tile::rock();
    assert!(rock.blocked);
    assert_eq!(rock.traversal_cost, IMPASSABLE_COST);
    let e = Tile::empty();
    assert!(!e.blocked);
    assert_eq!(e.traversal_cost, 1);
    assert_eq!(Tile::grass(), e);
    let wall = Tile::wall([true, true, true, true, true, true, true, false]);
    assert!(wall.blocked && wall.block_sight);
    assert_eq!(wall.sprite_id, SpriteId::wall_nes_open());
    assert_eq!(Tile::wall([true; 8]).sprite_id, SpriteId::wall_nesw_open());
    assert_eq!(Tile::wall([false; 8]).sprite_id, SpriteId::wall_nesw_open());
}

#[test]
fn wall_sprites_follow_neighbours() {
    let set = WallTileSpriteSet;
    assert_eq!(set.get_sprite_id([TileType::Wall; 8]), SpriteId::wall_nesw_open());
    let mut n = [TileType::Wall; 8];
    n[3] = TileType::Floor;
    assert_eq!(set.get_sprite_id(n), SpriteId::wall_n_open());
    assert_eq!(SpriteId::new(2, 2), SpriteId::wall_nesw_open());
}

#[test]
fn generation_uses_world_coordinates() {
    let rock_column = |_s: i32, x: i32, _y: i32| x == 40;
    let c = UnloadedChunk::generate(p(1, 0), 7, &rock_column);
    assert_eq!(c.pos, p(1, 0));
    assert_eq!(c.tiles.len(), CHUNK_TILES);
    assert!(c.entities.is_empty());
    let loaded = c.load();
    assert_eq!(*loaded.get_tile(8, 5), Tile::rock());
    assert_eq!(*loaded.get_tile(9, 5), Tile::empty());
    assert_eq!(*loaded.get_tile_at(p(8, 31)), Tile::rock());
}

#[test]
fn generation_passes_seed() {
    let by_seed = |s: i32, _x: i32, _y: i32| s == 3;
    let a = UnloadedChunk::generate(p(0, 0), 3, &by_seed).load();
    let b = UnloadedChunk::generate(p(0, 0), 4, &by_seed).load();
    assert_eq!(*a.get_tile(0, 0), Tile::rock());
    assert_eq!(*b.get_tile(0, 0), Tile::empty());
}

#[test]
fn generation_is_deterministic() {
    for pos in [p(0, 0), p(-3, 2), p(5, -1)] {
        let a = UnloadedChunk::generate(pos, 42, &perlin_rock);
        let b = UnloadedChunk::generate(pos, 42, &perlin_rock);
        assert_eq!(a.tiles, b.tiles);
    }
}

#[test]
fn void_chunk_is_open_ground() {
    let v = LoadedChunk::void();
    assert_eq!(v.pos, p(0, 0));
    assert_eq!(*v.get_tile(31, 31), Tile::empty());
}

#[test]
fn load_unload_keep_tiles() {
    let c = UnloadedChunk::generate(p(2, 2), 42, &perlin_rock);
    let tiles = c.tiles.clone();
    let loaded = c.load();
    let back = loaded.unload(Vec::new());
    assert_eq!(back.tiles, tiles);
    assert_eq!(back.pos, p(2, 2));
}

#[test]
fn level_loads_generates_and_looks_up() {
    let mut level = Level::new(42);
    assert!(!level.is_loaded(&p(0, 0)));
    assert!(level.get_loaded_tile(p(3, 3)).is_none());
    let rock_at = |_s: i32, x: i32, y: i32| x == -1 && y == -1;
    level.load_chunk(p(-1, -1), &rock_at);
    assert!(level.is_loaded(&p(-1, -1)));
    assert_eq!(level.loaded_count(), 1);
    assert_eq!(*level.get_loaded_tile(p(-1, -1)).unwrap(), Tile::rock());
    assert_eq!(*level.get_loaded_tile(p(-2, -1)).unwrap(), Tile::empty());
    assert!(level.get_loaded_tile(p(0, 0)).is_none());
    assert_eq!(level.get_loaded_chunk(p(-1, -1)).unwrap().pos, p(-1, -1));
    assert!(level.get_loaded_chunk(p(0, -1)).is_none());
}

#[test]
fn ensure_loaded_is_idempotent() {
    let mut level = Level::new(1);
    let calls = std::cell::Cell::new(0u32);
    let counting = |_s: i32, _x: i32, _y: i32| {
        calls.set(calls.get() + 1);
        false
    };
    level.ensure_loaded(p(4, 4), &counting);
    assert_eq!(calls.get(), 1024);
    let again = level.ensure_loaded(p(4, 4), &counting);
    assert_eq!(again.pos, p(4, 4));
    assert_eq!(calls.get(), 1024);
    assert_eq!(level.loaded_count(), 1);
}

#[test]
fn archive_round_trip_keeps_tiles() {
    let mut level = Level::new(42);
    level.load_chunk(p(1, -2), &perlin_rock);
    let before = level.get_loaded_chunk(p(1, -2)).unwrap().tiles.clone();
    let archived = level.unload_chunk(p(1, -2)).unwrap();
    assert_eq!(archived.tiles, before);
    assert!(!level.is_loaded(&p(1, -2)));
    // a sampler that would generate something else shows no regeneration
    let all_rock = |_s: i32, _x: i32, _y: i32| true;
    let again = level.load_chunk(p(1, -2), &all_rock);
    assert_eq!(again.tiles, before);
}

#[test]
fn unloading_a_missing_chunk_does_nothing() {
    let mut level = Level::new(0);
    assert!(level.unload_chunk(p(0, 0)).is_none());
    level.load_chunk(p(0, 0), &open_ground);
    assert!(level.unload_chunk(p(1, 0)).is_none());
    assert_eq!(level.loaded_count(), 1);
}

#[test]
fn default_level_is_empty() {
    let level = Level::default();
    assert_eq!(level.seed, 0);
    assert_eq!(level.loaded_count(), 0);
    assert!(level.loaded_positions().is_empty());
}
