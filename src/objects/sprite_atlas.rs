//! Cells of the sprite sheet, addressed by column and row.
use vstd::prelude::*;

verus! {

/// A cell of the sprite sheet: column `x`, row `y`.
#[derive(Debug, Clone, Copy, PartialEq, Eq, Structural)]
pub struct SpriteId {
    pub x: usize,
    pub y: usize,
}

impl SpriteId {
    pub fn new(x: usize, y: usize) -> (r: SpriteId)
        ensures
            r == (SpriteId { x, y }),
    {
        SpriteId { x, y }
    }

    pub open spec fn empty_spec() -> SpriteId {
        SpriteId { x: 0, y: 0 }
    }

    pub open spec fn wall_n_open_spec() -> SpriteId {
        SpriteId { x: 0, y: 3 }
    }

    pub open spec fn wall_nes_open_spec() -> SpriteId {
        SpriteId { x: 1, y: 2 }
    }

    pub open spec fn wall_nesw_open_spec() -> SpriteId {
        SpriteId { x: 2, y: 2 }
    }

    /// Bare ground.
    pub fn empty() -> (r: SpriteId)
        ensures
            r == Self::empty_spec(),
    {
        SpriteId { x: 0, y: 0 }
    }

    /// The player character.
    pub fn player() -> (r: SpriteId)
        ensures
            r == (SpriteId { x: 2, y: 0 }),
    {
        SpriteId { x: 2, y: 0 }
    }

    /// A tree, first variant.
    pub fn tree_a() -> (r: SpriteId)
        ensures
            r == (SpriteId { x: 3, y: 0 }),
    {
        SpriteId { x: 3, y: 0 }
    }

    /// A tree, second variant.
    pub fn tree_b() -> (r: SpriteId)
        ensures
            r == (SpriteId { x: 4, y: 0 }),
    {
        SpriteId { x: 4, y: 0 }
    }

    /// A wall open to the north.
    pub fn wall_n_open() -> (r: SpriteId)
        ensures
            r == Self::wall_n_open_spec(),
    {
        SpriteId { x: 0, y: 3 }
    }

    /// A wall open to the north, east and south.
    pub fn wall_nes_open() -> (r: SpriteId)
        ensures
            r == Self::wall_nes_open_spec(),
    {
        SpriteId { x: 1, y: 2 }
    }

    /// A wall open on all four sides.
    pub fn wall_nesw_open() -> (r: SpriteId)
        ensures
            r == Self::wall_nesw_open_spec(),
    {
        SpriteId { x: 2, y: 2 }
    }
}

} // verus!
