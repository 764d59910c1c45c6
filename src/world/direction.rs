//! The eight compass directions of the tile grid, and maps keyed by them.
use vstd::prelude::*;
use crate::world::position::{Position, sgn_int};

verus! {

/// Offset of direction `i` (north first, then clockwise): y grows southward.
pub open spec fn dir_offset(i: int) -> Position {
    if i == 0 {
        Position { x: 0, y: -1i32 }
    } else if i == 1 {
        Position { x: 1, y: -1i32 }
    } else if i == 2 {
        Position { x: 1, y: 0 }
    } else if i == 3 {
        Position { x: 1, y: 1 }
    } else if i == 4 {
        Position { x: 0, y: 1 }
    } else if i == 5 {
        Position { x: -1i32, y: 1 }
    } else if i == 6 {
        Position { x: -1i32, y: 0 }
    } else {
        Position { x: -1i32, y: -1i32 }
    }
}

/// A unit step on the grid: each component in {-1, 0, 1}.
#[derive(Debug, Clone, Copy, PartialEq, Eq, Hash, Structural)]
pub struct Direction {
    dir: Position,
}

impl Direction {
    /// The step as a position offset.
    pub closed spec fn offset(self) -> Position {
        self.dir
    }

    /// Each component is -1, 0 or 1.
    pub open spec fn wf(self) -> bool {
        -1 <= self.offset().x <= 1 && -1 <= self.offset().y <= 1
    }

    /// One of the eight compass directions (not the zero step).
    pub open spec fn is_compass(self) -> bool {
        self.wf() && !(self.offset().x == 0 && self.offset().y == 0)
    }

    /// The direction that points like `(x, y)`: the sign of each component.
    pub fn new(x: i32, y: i32) -> (r: Direction)
        ensures
            r.wf(),
            r.offset().x == sgn_int(x as int),
            r.offset().y == sgn_int(y as int),
    {
        Direction { dir: Position::new(x, y).sgn() }
    }

    /// Direction `index` of the compass list: north first, then clockwise.
    pub fn from_index(index: usize) -> (r: Direction)
        requires
            index < 8,
        ensures
            r.is_compass(),
            r.offset() == dir_offset(index as int),
    {
        let (x, y): (i32, i32) = if index == 0 {
            (0, -1)
        } else if index == 1 {
            (1, -1)
        } else if index == 2 {
            (1, 0)
        } else if index == 3 {
            (1, 1)
        } else if index == 4 {
            (0, 1)
        } else if index == 5 {
            (-1, 1)
        } else if index == 6 {
            (-1, 0)
        } else {
            (-1, -1)
        };
        Direction { dir: Position { x, y } }
    }

    pub fn north() -> (r: Direction)
        ensures
            r.offset() == dir_offset(0),
    {
        Self::from_index(0)
    }

    pub fn north_east() -> (r: Direction)
        ensures
            r.offset() == dir_offset(1),
    {
        Self::from_index(1)
    }

    pub fn east() -> (r: Direction)
        ensures
            r.offset() == dir_offset(2),
    {
        Self::from_index(2)
    }

    pub fn south_east() -> (r: Direction)
        ensures
            r.offset() == dir_offset(3),
    {
        Self::from_index(3)
    }

    pub fn south() -> (r: Direction)
        ensures
            r.offset() == dir_offset(4),
    {
        Self::from_index(4)
    }

    pub fn south_west() -> (r: Direction)
        ensures
            r.offset() == dir_offset(5),
    {
        Self::from_index(5)
    }

    pub fn west() -> (r: Direction)
        ensures
            r.offset() == dir_offset(6),
    {
        Self::from_index(6)
    }

    pub fn north_west() -> (r: Direction)
        ensures
            r.offset() == dir_offset(7),
    {
        Self::from_index(7)
    }

    /// The opposite direction.
    pub fn invert(self) -> (r: Direction)
        requires
            self.wf(),
        ensures
            r.wf(),
            r.offset().x == -self.offset().x,
            r.offset().y == -self.offset().y,
    {
        Direction::new(-self.dir.x, -self.dir.y)
    }

    /// The position of this direction in the compass list.
    pub fn to_index(self) -> (r: usize)
        requires
            self.is_compass(),
        ensures
            r < 8,
            dir_offset(r as int) == self.offset(),
    {
        let mut index: usize = 0;
        while index < 8
            invariant
                0 <= index <= 8,
                self.is_compass(),
                forall|j: int| 0 <= j < index ==> dir_offset(j) != self.offset(),
            decreases 8 - index,
        {
            if Self::from_index(index) == self {
                return index;
            }
            index = index + 1;
        }
        proof {
            assert(dir_offset(0) != self.offset());
            assert(dir_offset(1) != self.offset());
            assert(dir_offset(2) != self.offset());
            assert(dir_offset(3) != self.offset());
            assert(dir_offset(4) != self.offset());
            assert(dir_offset(5) != self.offset());
            assert(dir_offset(6) != self.offset());
            assert(dir_offset(7) != self.offset());
        }
        0
    }

    /// The step as a position offset.
    pub fn to_position(self) -> (r: Position)
        ensures
            r == self.offset(),
    {
        self.dir
    }
}

/// One value for each compass direction.
#[derive(Debug)]
pub struct DirectionalMap<T> {
    data: [T; 8],
}

impl<T> DirectionalMap<T> {
    /// The values, north first, then clockwise.
    pub closed spec fn values(&self) -> Seq<T> {
        self.data@
    }

    /// The value for `dir`.
    pub fn get(&self, dir: Direction) -> (r: &T)
        requires
            dir.is_compass(),
        ensures
            exists|i: int| 0 <= i < 8 && dir_offset(i) == dir.offset() && *r == self.values()[i],
    {
        let i = dir.to_index();
        &self.data[i]
    }

    /// Replaces the value for `dir`.
    pub fn set(&mut self, dir: Direction, value: T)
        requires
            dir.is_compass(),
        ensures
            exists|i: int|
                0 <= i < 8 && dir_offset(i) == dir.offset() && final(self).values() == old(
                    self,
                ).values().update(i, value),
    {
        let i = dir.to_index();
        self.data[i] = value;
    }

    pub fn north(&self) -> (r: &T)
        ensures
            *r == self.values()[0],
    {
        &self.data[0]
    }

    pub fn north_east(&self) -> (r: &T)
        ensures
            *r == self.values()[1],
    {
        &self.data[1]
    }

    pub fn east(&self) -> (r: &T)
        ensures
            *r == self.values()[2],
    {
        &self.data[2]
    }

    pub fn south_east(&self) -> (r: &T)
        ensures
            *r == self.values()[3],
    {
        &self.data[3]
    }

    pub fn south(&self) -> (r: &T)
        ensures
            *r == self.values()[4],
    {
        &self.data[4]
    }

    pub fn south_west(&self) -> (r: &T)
        ensures
            *r == self.values()[5],
    {
        &self.data[5]
    }

    pub fn west(&self) -> (r: &T)
        ensures
            *r == self.values()[6],
    {
        &self.data[6]
    }

    pub fn north_west(&self) -> (r: &T)
        ensures
            *r == self.values()[7],
    {
        &self.data[7]
    }
}

impl<T: Clone> DirectionalMap<T> {
    /// A map that holds a clone of `default` for every direction.
    pub fn new(default: T) -> (r: DirectionalMap<T>)
        ensures
            forall|i: int| 0 <= i < 8 ==> cloned::<T>(default, #[trigger] r.values()[i]),
    {
        DirectionalMap {
            data: [
                default.clone(),
                default.clone(),
                default.clone(),
                default.clone(),
                default.clone(),
                default.clone(),
                default.clone(),
                default.clone(),
            ],
        }
    }
}

} // verus!
