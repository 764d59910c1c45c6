use rusted::systems::control_system::{ControlSystem, Key, Keyboard};
use rusted::systems::health_system::{Health, HealthSystem};
use rusted::systems::movement_system::{Movement, MovementSystem};
use rusted::utils::matrix::{matrix, matrix_indexed};
use rusted::world::level::Level;
use rusted::world::position::Position;

fn p(x: i32, y: i32) -> Position {
    Position::new(x, y)
}

#[test]
fn movement_respects_blocking_and_residency() {
    let mut level = Level::new(0);
    let rock = |_s: i32, x: i32, y: i32| x == 2 && y == 2;
    level.load_chunk(p(0, 0), &rock);
    assert_eq!(MovementSystem::apply(&level, p(1, 1), p(1, 0)), p(2, 1));
    assert_eq!(MovementSystem::apply(&level, p(1, 1), p(1, 1)), p(1, 1));
    assert_eq!(MovementSystem::apply(&level, p(0, 0), p(-1, 0)), p(0, 0));
    assert_eq!(MovementSystem::apply(&level, p(i32::MAX, 0), p(1, 0)), p(i32::MAX, 0));
    assert_eq!(Movement::default().delta, p(0, 0));
}

#[test]
fn keys_give_delta() {
    let kb = Keyboard { pressed_keys: vec![Key::Numpad9] };
    assert_eq!(ControlSystem::delta(&kb), p(1, -1));
    let kb = Keyboard { pressed_keys: vec![Key::Left, Key::Down] };
    assert_eq!(ControlSystem::delta(&kb), p(-1, 1));
    let kb = Keyboard { pressed_keys: vec![Key::Left, Key::Right] };
    assert_eq!(ControlSystem::delta(&kb), p(1, 0));
    assert_eq!(ControlSystem::delta(&Keyboard::default()), p(0, 0));
    assert!(kb.is_pressed(Key::Left));
    assert!(!kb.is_pressed(Key::Up));
    assert!(kb.any_pressed(&[Key::Up, Key::Right]));
    assert!(!kb.any_pressed(&[Key::Up, Key::Numpad2]));
}

#[test]
fn health_runs_out_at_zero() {
    assert!(!HealthSystem::is_dead(&Health::default()));
    assert!(HealthSystem::is_dead(&Health { health: 0 }));
    assert!(HealthSystem::is_dead(&Health { health: -4 }));
}

#[test]
fn matrices_are_filled_cell_by_cell() {
    let m = matrix_indexed(2, 3, |x: usize, y: usize| x * 10 + y);
    assert_eq!(m, vec![vec![0, 1, 2], vec![10, 11, 12]]);
    let z = matrix(3, 1, || 7u8);
    assert_eq!(z, vec![vec![7], vec![7], vec![7]]);
}
