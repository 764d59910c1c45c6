//! Fixed-size square grids of tiles, the unit in which the world is
//! generated, kept resident and archived.
use vstd::prelude::*;
use crate::world::position::{CHUNK_SIZE, Position, valid_chunk, chunk_to_tile_spec};
use crate::world::tile::{Tile, empty_tile, rock_tile};

verus! {

/// Entities of the entity-component store, carried by archived chunks.
#[verifier::external_type_specification]
#[verifier::external_body]
pub struct ExEntity(specs::Entity);

/// Tiles in one chunk.
pub const CHUNK_TILES: usize = 1024;

/// Namespace for the chunk dimensions.
pub struct Chunk;

impl Chunk {
    /// Tiles along each side of a chunk.
    pub const SIZE: i32 = 32;
}

/// Where the tile at local `(x, y)` is stored: column after column.
pub open spec fn tile_index(x: int, y: int) -> int {
    x * CHUNK_SIZE + y
}

/// World tile coordinate of local coordinate `l` in chunk coordinate `c`.
pub open spec fn world_coord(c: int, l: int) -> int {
    c * CHUNK_SIZE + l
}

/// What generation makes of one tile, given the terrain sampler's answer.
pub open spec fn generated_tile(rock: bool) -> Tile {
    if rock {
        rock_tile()
    } else {
        empty_tile()
    }
}

/// `t` is what generation makes of local tile `(x, y)` of the chunk at `pos`
/// with `seed`, when `rock_at(seed, wx, wy)` tells whether world tile
/// `(wx, wy)` is rock.
pub open spec fn tile_generated<F: Fn(i32, i32, i32) -> bool>(
    t: Tile,
    pos: Position,
    seed: i32,
    rock_at: F,
    x: int,
    y: int,
) -> bool {
    exists|rock: bool|
        call_ensures(
            rock_at,
            (seed, world_coord(pos.x as int, x) as i32, world_coord(pos.y as int, y) as i32),
            rock,
        ) && t == generated_tile(rock)
}

/// `tiles` is what generation of the chunk at `pos` with `seed` produces.
pub open spec fn generated_from<F: Fn(i32, i32, i32) -> bool>(
    tiles: Seq<Tile>,
    pos: Position,
    seed: i32,
    rock_at: F,
) -> bool {
    &&& tiles.len() == CHUNK_TILES
    &&& forall|x: int, y: int|
        0 <= x < CHUNK_SIZE && 0 <= y < CHUNK_SIZE ==> tile_generated(
            #[trigger] tiles[tile_index(x, y)],
            pos,
            seed,
            rock_at,
            x,
            y,
        )
}

/// `rock_at` answers each question in one way only.
pub open spec fn sampler_deterministic<F: Fn(i32, i32, i32) -> bool>(rock_at: F) -> bool {
    forall|args: (i32, i32, i32), a: bool, b: bool|
        call_ensures(rock_at, args, a) && call_ensures(rock_at, args, b) ==> a == b
}

/// An archived chunk: its tiles, its position and the entities that were
/// resident on it when it was archived.
#[derive(Debug)]
pub struct UnloadedChunk {
    pub tiles: Vec<Tile>,
    pub pos: Position,
    pub entities: Vec<specs::Entity>,
}

/// A resident chunk, which lookups and the search read.
#[derive(Debug)]
pub struct LoadedChunk {
    pub tiles: Vec<Tile>,
    pub pos: Position,
}

/// Every tile has a positive traversal cost.
pub open spec fn costs_positive(tiles: Seq<Tile>) -> bool {
    forall|k: int| 0 <= k < tiles.len() ==> (#[trigger] tiles[k]).traversal_cost > 0
}

impl UnloadedChunk {
    pub open spec fn wf(&self) -> bool {
        self.tiles@.len() == CHUNK_TILES && valid_chunk(self.pos) && costs_positive(self.tiles@)
    }

    /// Generates the chunk at `chunk_pos`: each tile for which the terrain
    /// sampler reports rock (at the tile's world coordinates) is rock, every
    /// other tile open ground. The result carries no entities.
    pub fn generate<F: Fn(i32, i32, i32) -> bool>(chunk_pos: Position, seed: i32, rock_at: &F) -> (r:
        UnloadedChunk)
        requires
            valid_chunk(chunk_pos),
            forall|args: (i32, i32, i32)| call_requires(*rock_at, args),
        ensures
            r.wf(),
            r.pos == chunk_pos,
            r.entities@.len() == 0,
            generated_from(r.tiles@, chunk_pos, seed, *rock_at),
    {
        let base = crate::world::position::ChunkPosition::to_tile(chunk_pos);
        let mut tiles: Vec<Tile> = Vec::new();
        let mut k: usize = 0;
        while k < CHUNK_TILES
            invariant
                0 <= k <= CHUNK_TILES,
                valid_chunk(chunk_pos),
                base == chunk_to_tile_spec(chunk_pos),
                forall|args: (i32, i32, i32)| call_requires(*rock_at, args),
                tiles@.len() == k,
                costs_positive(tiles@),
                forall|j: int|
                    0 <= j < k ==> tile_generated(
                        #[trigger] tiles@[j],
                        chunk_pos,
                        seed,
                        *rock_at,
                        j / 32,
                        j % 32,
                    ),
            decreases CHUNK_TILES - k,
        {
            let x = (k / 32) as i32;
            let y = (k % 32) as i32;
            let rock = rock_at(seed, base.x + x, base.y + y);
            let tile = if rock {
                Tile::rock()
            } else {
                Tile::empty()
            };
            tiles.push(tile);
            proof {
                let xi = k as int / 32;
                let yi = k as int % 32;
                assert(x == xi && y == yi);
                assert(base.x + x == world_coord(chunk_pos.x as int, xi));
                assert(base.y + y == world_coord(chunk_pos.y as int, yi));
                assert(tiles@[k as int] == generated_tile(rock));
                assert(tile_generated(tiles@[k as int], chunk_pos, seed, *rock_at, xi, yi));
            }
            k = k + 1;
        }
        proof {
            assert forall|x: int, y: int| 0 <= x < CHUNK_SIZE && 0 <= y < CHUNK_SIZE implies tile_generated(
                #[trigger] tiles@[tile_index(x, y)],
                chunk_pos,
                seed,
                *rock_at,
                x,
                y,
            ) by {
                let j = tile_index(x, y);
                vstd::arithmetic::div_mod::lemma_fundamental_div_mod_converse(j, 32, x, y);
                assert(0 <= j < CHUNK_TILES);
                assert(tile_generated(tiles@[j], chunk_pos, seed, *rock_at, j / 32, j % 32));
            }
        }
        UnloadedChunk { tiles, pos: chunk_pos, entities: Vec::new() }
    }

    /// Makes the chunk resident: the same tiles, the same position.
    pub fn load(self) -> (r: LoadedChunk)
        ensures
            r.tiles@ == self.tiles@,
            r.pos == self.pos,
    {
        LoadedChunk { tiles: self.tiles, pos: self.pos }
    }
}

/// Two chunks generated for the same position and seed, with a sampler that
/// answers each question in one way only, hold the same tiles.
pub proof fn lemma_generate_deterministic<F: Fn(i32, i32, i32) -> bool>(
    a: Seq<Tile>,
    b: Seq<Tile>,
    pos: Position,
    seed: i32,
    rock_at: F,
)
    requires
        generated_from(a, pos, seed, rock_at),
        generated_from(b, pos, seed, rock_at),
        sampler_deterministic(rock_at),
    ensures
        a == b,
{
    assert forall|k: int| 0 <= k < a.len() implies a[k] == b[k] by {
        let x = k / 32;
        let y = k % 32;
        vstd::arithmetic::div_mod::lemma_fundamental_div_mod(k, 32);
        assert(k == tile_index(x, y));
        assert(tile_generated(a[tile_index(x, y)], pos, seed, rock_at, x, y));
        assert(tile_generated(b[tile_index(x, y)], pos, seed, rock_at, x, y));
        let args = (seed, world_coord(pos.x as int, x) as i32, world_coord(pos.y as int, y) as i32);
        let ra = choose|rock: bool| call_ensures(rock_at, args, rock) && a[k] == generated_tile(rock);
        let rb = choose|rock: bool| call_ensures(rock_at, args, rock) && b[k] == generated_tile(rock);
        assert(ra == rb);
    }
    assert(a =~= b);
}

impl LoadedChunk {
    pub open spec fn wf(&self) -> bool {
        self.tiles@.len() == CHUNK_TILES && valid_chunk(self.pos) && costs_positive(self.tiles@)
    }

    /// The tile at local `(x, y)`.
    pub open spec fn tile_spec(&self, x: int, y: int) -> Tile {
        self.tiles@[tile_index(x, y)]
    }

    /// A chunk at the origin made of open ground.
    pub fn void() -> (r: LoadedChunk)
        ensures
            r.wf(),
            r.pos == (Position { x: 0, y: 0 }),
            forall|k: int| 0 <= k < CHUNK_TILES ==> #[trigger] r.tiles@[k] == empty_tile(),
    {
        let mut tiles: Vec<Tile> = Vec::new();
        let mut k: usize = 0;
        while k < CHUNK_TILES
            invariant
                0 <= k <= CHUNK_TILES,
                tiles@.len() == k,
                costs_positive(tiles@),
                forall|j: int| 0 <= j < k ==> #[trigger] tiles@[j] == empty_tile(),
            decreases CHUNK_TILES - k,
        {
            tiles.push(Tile::empty());
            k = k + 1;
        }
        LoadedChunk { tiles, pos: Position { x: 0, y: 0 } }
    }

    /// The tile at local `(x, y)`; both must lie in `[0, CHUNK_SIZE)`.
    pub fn get_tile(&self, x: i32, y: i32) -> (r: &Tile)
        requires
            self.wf(),
            0 <= x < CHUNK_SIZE,
            0 <= y < CHUNK_SIZE,
        ensures
            *r == self.tile_spec(x as int, y as int),
    {
        let i = (x as usize) * 32 + (y as usize);
        &self.tiles[i]
    }

    /// The tile at a local position; both components must lie in `[0, CHUNK_SIZE)`.
    pub fn get_tile_at(&self, tile_pos: Position) -> (r: &Tile)
        requires
            self.wf(),
            0 <= tile_pos.x < CHUNK_SIZE,
            0 <= tile_pos.y < CHUNK_SIZE,
        ensures
            *r == self.tile_spec(tile_pos.x as int, tile_pos.y as int),
    {
        self.get_tile(tile_pos.x, tile_pos.y)
    }

    /// Archives the chunk with the entities resident on it: the same tiles,
    /// the same position.
    pub fn unload(self, entities: Vec<specs::Entity>) -> (r: UnloadedChunk)
        ensures
            r.tiles@ == self.tiles@,
            r.pos == self.pos,
            r.entities@ == entities@,
    {
        UnloadedChunk { tiles: self.tiles, pos: self.pos, entities }
    }
}

} // verus!
