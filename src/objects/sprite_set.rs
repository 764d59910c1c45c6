//! Choosing a tile's sprite from the kinds of terrain around it.
use vstd::prelude::*;
use crate::objects::sprite_atlas::SpriteId;
use crate::world::tile::TileType;

verus! {

/// A family of sprites for one kind of terrain, picked by the kinds of the
/// eight neighbours (north first, clockwise).
pub trait TileSpriteSet {
    spec fn sprite_for(&self, neighbours: Seq<TileType>) -> SpriteId;

    fn get_sprite_id(&self, neighbours: [TileType; 8]) -> (r: SpriteId)
        ensures
            r == self.sprite_for(neighbours@),
    ;
}

/// The sprites of walls.
pub struct WallTileSpriteSet;

impl TileSpriteSet for WallTileSpriteSet {
    /// A wall enclosed by walls is drawn open on all sides; any other wall is
    /// drawn open to the north.
    open spec fn sprite_for(&self, neighbours: Seq<TileType>) -> SpriteId {
        if forall|i: int| 0 <= i < 8 ==> #[trigger] neighbours[i] == TileType::Wall {
            SpriteId::wall_nesw_open_spec()
        } else {
            SpriteId::wall_n_open_spec()
        }
    }

    fn get_sprite_id(&self, neighbours: [TileType; 8]) -> (r: SpriteId) {
        let mut i: usize = 0;
        while i < 8
            invariant
                0 <= i <= 8,
                neighbours@.len() == 8,
                forall|j: int| 0 <= j < i ==> #[trigger] neighbours@[j] == TileType::Wall,
            decreases 8 - i,
        {
            if neighbours[i] != TileType::Wall {
                return SpriteId::wall_n_open();
            }
            i = i + 1;
        }
        SpriteId::wall_nesw_open()
    }
}

} // verus!
