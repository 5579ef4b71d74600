//! The velocity of a body, as its displacement over one simulation step.
use vstd::prelude::*;
use crate::vec2::Vec2;

verus! {

/// How far a body moves over one simulation step.
#[derive(Clone, Copy, Debug, PartialEq, Eq, Structural)]
pub struct Velocity(Vec2);

impl View for Velocity {
    type V = Vec2;

    closed spec fn view(&self) -> Vec2 {
        self.0
    }
}

impl Velocity {
    /// A velocity of the given displacement per step.
    pub fn new(vel: Vec2) -> (r: Velocity)
        ensures
            r@ == vel,
    {
        Velocity(vel)
    }

    /// The displacement per step.
    pub fn xy(&self) -> (r: Vec2)
        ensures
            r == self@,
    {
        self.0
    }

    /// Replaces the displacement per step.
    pub fn set_xy(&mut self, vel: Vec2)
        ensures
            final(self)@ == vel,
    {
        self.0 = vel;
    }
}

} // verus!
