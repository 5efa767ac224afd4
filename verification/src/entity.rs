use vstd::prelude::*;

verus! {

/// Health after losing `decrement` points from `health`: it stops at 0.
pub open spec fn health_after_damage(health: u32, decrement: u32) -> u32 {
    if decrement >= health {
        0
    } else {
        (health - decrement) as u32
    }
}

/// An entity with health points, which dies when they run out.
pub trait ModelHealth {
    /// The entity's current health points.
    spec fn health(&self) -> u32;

    /// Takes `decrement` points off the health, stopping at 0, and returns
    /// whether the entity is now dead, that is, has no health left.
    fn decrease_health_checked(&mut self, decrement: u32) -> (dead: bool)
        ensures
            final(self).health() == health_after_damage(old(self).health(), decrement),
            dead == (final(self).health() == 0),
    ;

    /// Sets the health points.
    fn set_health(&mut self, health: u32)
        ensures
            final(self).health() == health,
    ;

    /// The current health points.
    fn get_health(&self) -> (health: u32)
        ensures
            health == self.health(),
    ;
}

} // verus!
