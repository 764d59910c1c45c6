//! Terrain cells.
use vstd::prelude::*;
use crate::objects::sprite_atlas::SpriteId;

verus! {

/// Traversal cost of a tile that is effectively impassable: the search may
/// still cross it, at a price no ordinary route reaches.
pub const IMPASSABLE_COST: i32 = 1000000;

/// One grid cell: whether it blocks movement and sight, what a step onto it
/// costs, and how it is drawn.
#[derive(Debug, Clone, Copy, PartialEq, Eq, Structural)]
pub struct Tile {
    pub blocked: bool,
    pub block_sight: bool,
    pub traversal_cost: i32,
    pub sprite_id: SpriteId,
}

/// Kinds of terrain, as seen by the sprite selection.
#[derive(Debug, Clone, Copy, PartialEq, Eq, Structural)]
pub enum TileType {
    Floor,
    Wall,
    Empty,
}

pub open spec fn empty_tile() -> Tile {
    Tile { blocked: false, block_sight: false, traversal_cost: 1, sprite_id: SpriteId::empty_spec() }
}

pub open spec fn rock_tile() -> Tile {
    Tile {
        blocked: true,
        block_sight: false,
        traversal_cost: IMPASSABLE_COST,
        sprite_id: SpriteId::wall_nesw_open_spec(),
    }
}

/// The sprite of a wall, chosen by which of its eight neighbours
/// (north first, clockwise) are walls too.
pub open spec fn wall_sprite(neighbours: Seq<bool>) -> SpriteId {
    if forall|i: int| 0 <= i < 7 ==> #[trigger] neighbours[i] {
        if neighbours[7] {
            SpriteId::wall_nesw_open_spec()
        } else {
            SpriteId::wall_nes_open_spec()
        }
    } else {
        SpriteId::wall_nesw_open_spec()
    }
}

impl Tile {
    /// Open ground at unit cost.
    pub fn empty() -> (r: Tile)
        ensures
            r == empty_tile(),
    {
        Tile { blocked: false, block_sight: false, traversal_cost: 1, sprite_id: SpriteId::empty() }
    }

    /// Grass: open ground at unit cost.
    pub fn grass() -> (r: Tile)
        ensures
            r == empty_tile(),
    {
        Tile { blocked: false, block_sight: false, traversal_cost: 1, sprite_id: SpriteId::empty() }
    }

    /// Rock: impassable terrain, priced at the impassable cost.
    pub fn rock() -> (r: Tile)
        ensures
            r == rock_tile(),
    {
        Tile {
            blocked: true,
            block_sight: false,
            traversal_cost: IMPASSABLE_COST,
            sprite_id: SpriteId::wall_nesw_open(),
        }
    }

    /// A wall, drawn according to which neighbours are walls.
    pub fn wall(neighbours: [bool; 8]) -> (r: Tile)
        ensures
            r == (Tile {
                blocked: true,
                block_sight: true,
                traversal_cost: IMPASSABLE_COST,
                sprite_id: wall_sprite(neighbours@),
            }),
    {
        let mut i: usize = 0;
        let mut first_seven = true;
        while i < 7
            invariant
                0 <= i <= 7,
                neighbours@.len() == 8,
                first_seven == (forall|j: int| 0 <= j < i ==> #[trigger] neighbours@[j]),
            decreases 7 - i,
        {
            first_seven = first_seven && neighbours[i];
            i = i + 1;
        }
        let sprite_id = if first_seven && !neighbours[7] {
            SpriteId::wall_nes_open()
        } else {
            SpriteId::wall_nesw_open()
        };
        Tile { blocked: true, block_sight: true, traversal_cost: IMPASSABLE_COST, sprite_id }
    }
}

} // verus!
