//! Applying movement deltas: a step happens only onto a resident tile that
//! does not block.
use vstd::prelude::*;
use crate::world::level::Level;
use crate::world::position::{Position, fits_i32};

verus! {

/// The step an entity wants to take this tick.
#[derive(Debug, Clone, Copy, PartialEq, Eq, Structural)]
pub struct Movement {
    pub delta: Position,
}

impl Default for Movement {
    fn default() -> (r: Movement)
        ensures
            r.delta == (Position { x: 0, y: 0 }),
    {
        Movement { delta: Position { x: 0, y: 0 } }
    }
}

/// Where an entity at `pos` ends up when it tries to move by `delta`: at
/// `pos + delta` when that tile is resident and does not block, else where
/// it was.
pub open spec fn moved_to(level: Level, pos: Position, delta: Position) -> Position {
    let tx = pos.x + delta.x;
    let ty = pos.y + delta.y;
    if fits_i32(tx) && fits_i32(ty) {
        let target = Position { x: tx as i32, y: ty as i32 };
        match level.loaded_tile(target) {
            Some(t) => if t.blocked {
                pos
            } else {
                target
            },
            None => pos,
        }
    } else {
        pos
    }
}

/// The movement pass.
pub struct MovementSystem;

impl MovementSystem {
    /// Moves an entity at `pos` by `delta` if the tile there is resident and
    /// does not block; returns the new position.
    pub fn apply(level: &Level, pos: Position, delta: Position) -> (r: Position)
        requires
            level.wf(),
        ensures
            r == moved_to(*level, pos, delta),
    {
        let tx = (pos.x as i64) + (delta.x as i64);
        let ty = (pos.y as i64) + (delta.y as i64);
        if tx < -2147483648 || tx > 2147483647 || ty < -2147483648 || ty > 2147483647 {
            return pos;
        }
        let target = Position { x: tx as i32, y: ty as i32 };
        let blocked = match level.get_loaded_tile(target) {
            Some(t) => t.blocked,
            None => true,
        };
        if blocked {
            pos
        } else {
            target
        }
    }
}

} // verus!
