//! Turning the pressed keys into the controlled entity's movement.
use vstd::prelude::*;
use crate::world::position::Position;

verus! {

/// The keys that steer the controlled entity.
#[derive(Debug, Clone, Copy, PartialEq, Eq, Hash, Structural)]
pub enum Key {
    Numpad1,
    Numpad2,
    Numpad3,
    Numpad4,
    Numpad6,
    Numpad7,
    Numpad8,
    Numpad9,
    Left,
    Right,
    Up,
    Down,
}

/// The keys held down this tick.
pub struct Keyboard {
    pub pressed_keys: Vec<Key>,
}

impl Default for Keyboard {
    fn default() -> (r: Keyboard)
        ensures
            r.pressed_keys@.len() == 0,
    {
        Keyboard { pressed_keys: Vec::new() }
    }
}

pub open spec fn steers_east(k: Key) -> bool {
    k == Key::Numpad9 || k == Key::Numpad6 || k == Key::Numpad3 || k == Key::Right
}

pub open spec fn steers_west(k: Key) -> bool {
    k == Key::Numpad7 || k == Key::Numpad4 || k == Key::Numpad1 || k == Key::Left
}

pub open spec fn steers_north(k: Key) -> bool {
    k == Key::Numpad7 || k == Key::Numpad8 || k == Key::Numpad9 || k == Key::Up
}

pub open spec fn steers_south(k: Key) -> bool {
    k == Key::Numpad1 || k == Key::Numpad2 || k == Key::Numpad3 || k == Key::Down
}

impl Keyboard {
    /// Whether `code` is held down.
    pub fn is_pressed(&self, code: Key) -> (r: bool)
        ensures
            r == self.pressed_keys@.contains(code),
    {
        let mut i: usize = 0;
        while i < self.pressed_keys.len()
            invariant
                0 <= i <= self.pressed_keys@.len(),
                forall|j: int| 0 <= j < i ==> self.pressed_keys@[j] != code,
            decreases self.pressed_keys@.len() - i,
        {
            if self.pressed_keys[i] == code {
                return true;
            }
            i = i + 1;
        }
        false
    }

    /// Whether any of `codes` is held down.
    pub fn any_pressed(&self, codes: &[Key]) -> (r: bool)
        ensures
            r == exists|i: int| 0 <= i < codes@.len() && self.pressed_keys@.contains(#[trigger] codes@[i]),
    {
        let mut i: usize = 0;
        while i < codes.len()
            invariant
                0 <= i <= codes@.len(),
                forall|j: int| 0 <= j < i ==> !self.pressed_keys@.contains(#[trigger] codes@[j]),
            decreases codes@.len() - i,
        {
            if self.is_pressed(codes[i]) {
                return true;
            }
            i = i + 1;
        }
        false
    }
}

/// Marks the entity that the keyboard steers.
#[derive(Debug, Clone, Copy, PartialEq, Eq, Structural)]
pub struct Control;

impl Default for Control {
    fn default() -> (r: Control) {
        Control
    }
}

/// The pass that reads the keyboard.
pub struct ControlSystem;

impl ControlSystem {
    /// The movement delta that the held keys ask for: east wins over west
    /// and north over south; y grows southward.
    pub fn delta(keyboard: &Keyboard) -> (r: Position)
        ensures
            r.x == if exists|i: int|
                0 <= i < keyboard.pressed_keys@.len() && steers_east(
                    #[trigger] keyboard.pressed_keys@[i],
                ) {
                1
            } else if exists|i: int|
                0 <= i < keyboard.pressed_keys@.len() && steers_west(
                    #[trigger] keyboard.pressed_keys@[i],
                ) {
                -1
            } else {
                0
            },
            r.y == if exists|i: int|
                0 <= i < keyboard.pressed_keys@.len() && steers_north(
                    #[trigger] keyboard.pressed_keys@[i],
                ) {
                -1
            } else if exists|i: int|
                0 <= i < keyboard.pressed_keys@.len() && steers_south(
                    #[trigger] keyboard.pressed_keys@[i],
                ) {
                1
            } else {
                0
            },
    {
        let mut east = false;
        let mut west = false;
        let mut north = false;
        let mut south = false;
        let mut i: usize = 0;
        while i < keyboard.pressed_keys.len()
            invariant
                0 <= i <= keyboard.pressed_keys@.len(),
                east == exists|j: int| 0 <= j < i && steers_east(#[trigger] keyboard.pressed_keys@[j]),
                west == exists|j: int| 0 <= j < i && steers_west(#[trigger] keyboard.pressed_keys@[j]),
                north == exists|j: int| 0 <= j < i && steers_north(#[trigger] keyboard.pressed_keys@[j]),
                south == exists|j: int| 0 <= j < i && steers_south(#[trigger] keyboard.pressed_keys@[j]),
            decreases keyboard.pressed_keys@.len() - i,
        {
            let k = keyboard.pressed_keys[i];
            east = east || k == Key::Numpad9 || k == Key::Numpad6 || k == Key::Numpad3 || k == Key::Right;
            west = west || k == Key::Numpad7 || k == Key::Numpad4 || k == Key::Numpad1 || k == Key::Left;
            north = north || k == Key::Numpad7 || k == Key::Numpad8 || k == Key::Numpad9 || k == Key::Up;
            south = south || k == Key::Numpad1 || k == Key::Numpad2 || k == Key::Numpad3 || k == Key::Down;
            proof {
                assert(keyboard.pressed_keys@[i as int] == k);
            }
            i = i + 1;
        }
        let dx: i32 = if east {
            1
        } else if west {
            -1
        } else {
            0
        };
        let dy: i32 = if north {
            -1
        } else if south {
            1
        } else {
            0
        };
        Position { x: dx, y: dy }
    }
}

} // verus!
