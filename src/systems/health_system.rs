//! Hit points, and which entities have run out of them.
use vstd::prelude::*;

verus! {

/// Hit points of an entity.
#[derive(Debug, Clone, Copy, PartialEq, Eq, Structural)]
pub struct Health {
    pub health: i32,
}

impl Default for Health {
    fn default() -> (r: Health)
        ensures
            r.health == 1,
    {
        Health { health: 1 }
    }
}

/// The pass that removes entities without hit points.
pub struct HealthSystem;

impl HealthSystem {
    /// Whether the entity must be removed: it has no hit points left.
    pub fn is_dead(health: &Health) -> (r: bool)
        ensures
            r == (health.health <= 0),
    {
        health.health <= 0
    }
}

} // verus!
