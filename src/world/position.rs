//! Integer positions and the conversions between tile, chunk, world and
//! screen space. Every conversion floors, so negative coordinates map onto
//! contiguous chunks.
use vstd::prelude::*;

verus! {

/// Tiles along each side of a chunk.
pub const CHUNK_SIZE: i32 = 32;

/// World units (pixels at zoom 1) along each side of a tile.
pub const TILE_SIZE: i32 = 32;

/// Smallest chunk coordinate whose tiles all have `i32` coordinates.
pub const CHUNK_MIN: i32 = -67108864;

/// Largest chunk coordinate whose tiles all have `i32` coordinates.
pub const CHUNK_MAX: i32 = 67108863;

/// A 2D integer vector. Which space it lives in (tile, chunk, world,
/// screen) is given by how it is used.
#[derive(Debug, Clone, Copy, PartialEq, Eq, Hash, Structural)]
pub struct Position {
    pub x: i32,
    pub y: i32,
}

/// Floor division by a positive divisor (Verus' `/` on `int` is Euclidean,
/// which agrees with floor division when the divisor is positive).
pub open spec fn floor_div(a: int, b: int) -> int
    recommends
        b > 0,
{
    a / b
}

/// The non-negative remainder that goes with `floor_div`.
pub open spec fn floor_mod(a: int, b: int) -> int
    recommends
        b > 0,
{
    a % b
}

pub open spec fn abs_int(a: int) -> int {
    if a < 0 {
        -a
    } else {
        a
    }
}

pub open spec fn sgn_int(a: int) -> int {
    if a < 0 {
        -1
    } else if a > 0 {
        1
    } else {
        0
    }
}

/// Chebyshev distance: the number of 8-connected steps between two tiles.
pub open spec fn chebyshev(a: Position, b: Position) -> int {
    let dx = abs_int(a.x - b.x);
    let dy = abs_int(a.y - b.y);
    if dx < dy {
        dy
    } else {
        dx
    }
}

pub open spec fn fits_i32(v: int) -> bool {
    i32::MIN <= v <= i32::MAX
}

/// A chunk coordinate pair whose tiles all have `i32` coordinates.
pub open spec fn valid_chunk(c: Position) -> bool {
    CHUNK_MIN <= c.x <= CHUNK_MAX && CHUNK_MIN <= c.y <= CHUNK_MAX
}

pub open spec fn tile_to_chunk_spec(t: Position) -> Position {
    Position {
        x: floor_div(t.x as int, CHUNK_SIZE as int) as i32,
        y: floor_div(t.y as int, CHUNK_SIZE as int) as i32,
    }
}

pub open spec fn tile_in_chunk_spec(t: Position) -> Position {
    Position {
        x: floor_mod(t.x as int, CHUNK_SIZE as int) as i32,
        y: floor_mod(t.y as int, CHUNK_SIZE as int) as i32,
    }
}

pub open spec fn chunk_to_tile_spec(c: Position) -> Position {
    Position { x: (c.x * CHUNK_SIZE) as i32, y: (c.y * CHUNK_SIZE) as i32 }
}

impl Position {
    pub open spec fn key(self) -> (i32, i32) {
        (self.x, self.y)
    }

    pub fn new(x: i32, y: i32) -> (r: Position)
        ensures
            r.x == x,
            r.y == y,
    {
        Position { x, y }
    }

    /// Componentwise sum.
    pub fn plus(self, other: Position) -> (r: Position)
        requires
            fits_i32(self.x + other.x),
            fits_i32(self.y + other.y),
        ensures
            r.x == self.x + other.x,
            r.y == self.y + other.y,
    {
        Position { x: self.x + other.x, y: self.y + other.y }
    }

    /// Componentwise difference.
    pub fn minus(self, other: Position) -> (r: Position)
        requires
            fits_i32(self.x - other.x),
            fits_i32(self.y - other.y),
        ensures
            r.x == self.x - other.x,
            r.y == self.y - other.y,
    {
        Position { x: self.x - other.x, y: self.y - other.y }
    }

    /// Both components multiplied by `k`.
    pub fn scale(self, k: i32) -> (r: Position)
        requires
            fits_i32(self.x * k),
            fits_i32(self.y * k),
        ensures
            r.x == self.x * k,
            r.y == self.y * k,
    {
        Position { x: self.x * k, y: self.y * k }
    }

    /// Whether `other` is this position or one of its eight neighbours.
    pub fn is_adjacent(self, other: Position) -> (r: bool)
        ensures
            r == (abs_int(self.x - other.x) <= 1 && abs_int(self.y - other.y) <= 1),
            r == (chebyshev(self, other) <= 1),
    {
        let dx = (self.x as i64) - (other.x as i64);
        let dy = (self.y as i64) - (other.y as i64);
        -1 <= dx && dx <= 1 && -1 <= dy && dy <= 1
    }

    /// Componentwise absolute value.
    pub fn abs(self) -> (r: Position)
        requires
            self.x != i32::MIN,
            self.y != i32::MIN,
        ensures
            r.x == abs_int(self.x as int),
            r.y == abs_int(self.y as int),
    {
        Position {
            x: if self.x < 0 { -self.x } else { self.x },
            y: if self.y < 0 { -self.y } else { self.y },
        }
    }

    /// Componentwise sign, each component in {-1, 0, 1}.
    pub fn sgn(self) -> (r: Position)
        ensures
            r.x == sgn_int(self.x as int),
            r.y == sgn_int(self.y as int),
    {
        Position {
            x: if self.x < 0 { -1 } else if self.x > 0 { 1 } else { 0 },
            y: if self.y < 0 { -1 } else if self.y > 0 { 1 } else { 0 },
        }
    }

    /// Chebyshev distance, computed wide so that no pair of positions overflows.
    pub fn dist(self, other: Position) -> (r: i64)
        ensures
            r == chebyshev(self, other),
            r >= 0,
    {
        let dx0 = (self.x as i64) - (other.x as i64);
        let dy0 = (self.y as i64) - (other.y as i64);
        let dx = if dx0 < 0 { -dx0 } else { dx0 };
        let dy = if dy0 < 0 { -dy0 } else { dy0 };
        if dx < dy {
            dy
        } else {
            dx
        }
    }
}

impl Default for Position {
    fn default() -> (r: Position)
        ensures
            r.x == 0,
            r.y == 0,
    {
        Position { x: 0, y: 0 }
    }
}

/// Floor division of an `i32` by a positive `i32`, exact for every input.
fn div_floor(a: i32, b: i32) -> (r: i32)
    requires
        b > 0,
    ensures
        r == floor_div(a as int, b as int),
{
    if a >= 0 {
        a / b
    } else {
        let n: i32 = -(a + 1);
        let q: i32 = n / b;
        proof {
            let ai = a as int;
            let bi = b as int;
            let ni = n as int;
            let qi = q as int;
            assert(ni == -ai - 1);
            assert(ni == qi * bi + ni % bi) by (nonlinear_arith)
                requires
                    qi == ni / bi,
                    bi > 0,
            ;
            assert(0 <= ni % bi < bi);
            let m = bi - 1 - ni % bi;
            assert(ai == (-qi - 1) * bi + m) by (nonlinear_arith)
                requires
                    ni == -ai - 1,
                    ni == qi * bi + ni % bi,
                    m == bi - 1 - ni % bi,
            ;
            assert(0 <= m < bi);
            vstd::arithmetic::div_mod::lemma_fundamental_div_mod_converse(ai, bi, -qi - 1, m);
        }
        -q - 1
    }
}

/// Conversions of tile positions.
pub struct TilePosition;

impl TilePosition {
    /// The chunk that holds the tile: `floor(tile / CHUNK_SIZE)`.
    pub fn to_chunk(tile_pos: Position) -> (r: Position)
        ensures
            r == tile_to_chunk_spec(tile_pos),
            valid_chunk(r),
    {
        let x = div_floor(tile_pos.x, CHUNK_SIZE);
        let y = div_floor(tile_pos.y, CHUNK_SIZE);
        Position { x, y }
    }

    /// The tile's offset inside its chunk, each component in `[0, CHUNK_SIZE)`.
    pub fn to_tile_in_chunk(tile_pos: Position) -> (r: Position)
        ensures
            r == tile_in_chunk_spec(tile_pos),
            0 <= r.x < CHUNK_SIZE,
            0 <= r.y < CHUNK_SIZE,
            tile_pos.x == tile_to_chunk_spec(tile_pos).x * CHUNK_SIZE + r.x,
            tile_pos.y == tile_to_chunk_spec(tile_pos).y * CHUNK_SIZE + r.y,
    {
        let c = Self::to_chunk(tile_pos);
        proof {
            vstd::arithmetic::div_mod::lemma_fundamental_div_mod(tile_pos.x as int, 32);
            vstd::arithmetic::div_mod::lemma_fundamental_div_mod(tile_pos.y as int, 32);
        }
        Position { x: tile_pos.x - c.x * CHUNK_SIZE, y: tile_pos.y - c.y * CHUNK_SIZE }
    }

    /// The tile's top-left corner in world units.
    pub fn to_world(tile_pos: Position) -> (r: Position)
        requires
            fits_i32(tile_pos.x * TILE_SIZE),
            fits_i32(tile_pos.y * TILE_SIZE),
        ensures
            r.x == tile_pos.x * TILE_SIZE,
            r.y == tile_pos.y * TILE_SIZE,
    {
        tile_pos.scale(TILE_SIZE)
    }

    /// The tile's top-left corner on screen.
    pub fn to_screen(tile_pos: Position, camera_pos: Position, zoom: i32) -> (r: Position)
        requires
            zoom > 0,
            fits_i32(tile_pos.x * TILE_SIZE),
            fits_i32(tile_pos.y * TILE_SIZE),
            fits_i32(tile_pos.x * TILE_SIZE - camera_pos.x),
            fits_i32(tile_pos.y * TILE_SIZE - camera_pos.y),
            fits_i32((tile_pos.x * TILE_SIZE - camera_pos.x) * zoom),
            fits_i32((tile_pos.y * TILE_SIZE - camera_pos.y) * zoom),
        ensures
            r.x == (tile_pos.x * TILE_SIZE - camera_pos.x) * zoom,
            r.y == (tile_pos.y * TILE_SIZE - camera_pos.y) * zoom,
    {
        WorldPosition::to_screen(Self::to_world(tile_pos), camera_pos, zoom)
    }
}

/// Conversions of chunk positions.
pub struct ChunkPosition;

impl ChunkPosition {
    /// The chunk's first tile: `chunk * CHUNK_SIZE`.
    pub fn to_tile(chunk_pos: Position) -> (r: Position)
        requires
            valid_chunk(chunk_pos),
        ensures
            r == chunk_to_tile_spec(chunk_pos),
    {
        chunk_pos.scale(CHUNK_SIZE)
    }

    /// The chunk's top-left corner in world units.
    pub fn to_world(chunk_pos: Position) -> (r: Position)
        requires
            valid_chunk(chunk_pos),
            fits_i32(chunk_pos.x * CHUNK_SIZE * TILE_SIZE),
            fits_i32(chunk_pos.y * CHUNK_SIZE * TILE_SIZE),
        ensures
            r.x == chunk_pos.x * CHUNK_SIZE * TILE_SIZE,
            r.y == chunk_pos.y * CHUNK_SIZE * TILE_SIZE,
    {
        chunk_pos.scale(CHUNK_SIZE).scale(TILE_SIZE)
    }

    /// The chunk's top-left corner on screen.
    pub fn to_screen(chunk_pos: Position, camera_pos: Position, zoom: i32) -> (r: Position)
        requires
            zoom > 0,
            valid_chunk(chunk_pos),
            fits_i32(chunk_pos.x * CHUNK_SIZE * TILE_SIZE),
            fits_i32(chunk_pos.y * CHUNK_SIZE * TILE_SIZE),
            fits_i32(chunk_pos.x * CHUNK_SIZE * TILE_SIZE - camera_pos.x),
            fits_i32(chunk_pos.y * CHUNK_SIZE * TILE_SIZE - camera_pos.y),
            fits_i32((chunk_pos.x * CHUNK_SIZE * TILE_SIZE - camera_pos.x) * zoom),
            fits_i32((chunk_pos.y * CHUNK_SIZE * TILE_SIZE - camera_pos.y) * zoom),
        ensures
            r.x == (chunk_pos.x * CHUNK_SIZE * TILE_SIZE - camera_pos.x) * zoom,
            r.y == (chunk_pos.y * CHUNK_SIZE * TILE_SIZE - camera_pos.y) * zoom,
    {
        WorldPosition::to_screen(Self::to_world(chunk_pos), camera_pos, zoom)
    }
}

/// Conversions of world positions.
pub struct WorldPosition;

impl WorldPosition {
    /// The tile under a world point: `floor(world / TILE_SIZE)`.
    pub fn to_tile(world_pos: Position) -> (r: Position)
        ensures
            r.x == floor_div(world_pos.x as int, TILE_SIZE as int),
            r.y == floor_div(world_pos.y as int, TILE_SIZE as int),
    {
        Position { x: div_floor(world_pos.x, TILE_SIZE), y: div_floor(world_pos.y, TILE_SIZE) }
    }

    /// The chunk under a world point.
    pub fn to_chunk(world_pos: Position) -> (r: Position)
        ensures
            r == tile_to_chunk_spec(
                Position {
                    x: floor_div(world_pos.x as int, TILE_SIZE as int) as i32,
                    y: floor_div(world_pos.y as int, TILE_SIZE as int) as i32,
                },
            ),
    {
        TilePosition::to_chunk(Self::to_tile(world_pos))
    }

    /// `(world - camera) * zoom`.
    pub fn to_screen(world_pos: Position, camera_pos: Position, zoom: i32) -> (r: Position)
        requires
            zoom > 0,
            fits_i32(world_pos.x - camera_pos.x),
            fits_i32(world_pos.y - camera_pos.y),
            fits_i32((world_pos.x - camera_pos.x) * zoom),
            fits_i32((world_pos.y - camera_pos.y) * zoom),
        ensures
            r.x == (world_pos.x - camera_pos.x) * zoom,
            r.y == (world_pos.y - camera_pos.y) * zoom,
    {
        world_pos.minus(camera_pos).scale(zoom)
    }
}

/// Screen space: positions in pixels relative to the camera.
pub struct ScreenPosition;

/// Going from a chunk to one of its tiles and back gives the chunk again,
/// and the tile's offset inside the chunk is the offset it was built from;
/// every tile's offset lies in `[0, CHUNK_SIZE)`.
pub proof fn lemma_chunk_tile_round_trip(c: Position, l: Position, t: Position)
    requires
        valid_chunk(c),
        0 <= l.x < CHUNK_SIZE,
        0 <= l.y < CHUNK_SIZE,
    ensures
        fits_i32(c.x * CHUNK_SIZE + l.x),
        fits_i32(c.y * CHUNK_SIZE + l.y),
        tile_to_chunk_spec(
            Position { x: (c.x * CHUNK_SIZE + l.x) as i32, y: (c.y * CHUNK_SIZE + l.y) as i32 },
        ) == c,
        tile_in_chunk_spec(
            Position { x: (c.x * CHUNK_SIZE + l.x) as i32, y: (c.y * CHUNK_SIZE + l.y) as i32 },
        ) == l,
        0 <= tile_in_chunk_spec(t).x < CHUNK_SIZE,
        0 <= tile_in_chunk_spec(t).y < CHUNK_SIZE,
{
    vstd::arithmetic::div_mod::lemma_fundamental_div_mod_converse(
        c.x * 32 + l.x,
        32,
        c.x as int,
        l.x as int,
    );
    vstd::arithmetic::div_mod::lemma_fundamental_div_mod_converse(
        c.y * 32 + l.y,
        32,
        c.y as int,
        l.y as int,
    );
}

} // verus!
