//! Collision reports between bodies, named by their entity identifiers.
use vstd::prelude::*;
use crate::vec2::Vec2;
use crate::physics::time::{Moment, Time};

verus! {

/// A collision found during a step: body `a` meets body `b` at moment
/// `time` of the step, on the face of `b` whose outward normal is `normal`,
/// and stands at `impact_point` at that moment. When `time` is minus
/// infinity (the bodies touch with no relative motion) the impact point is
/// where `a` starts the step.
#[derive(Clone, Copy, Debug, PartialEq, Eq, Structural)]
pub struct CollisionMessage {
    pub a: u64,
    pub b: u64,
    pub normal: Vec2,
    pub time: Time,
    pub impact_point: Vec2,
}

/// A collision report with its moment as an exact fraction.
pub ghost struct Contact {
    pub a: u64,
    pub b: u64,
    pub normal: Vec2,
    pub time: Moment,
    pub impact_point: Vec2,
}

impl View for CollisionMessage {
    type V = Contact;

    open spec fn view(&self) -> Contact {
        Contact {
            a: self.a,
            b: self.b,
            normal: self.normal,
            time: self.time@,
            impact_point: self.impact_point,
        }
    }
}

/// A collision as seen by `entity`, which met `target`: where it happened
/// and the velocities of both bodies.
#[derive(Clone, Copy, Debug, PartialEq, Eq, Structural)]
pub struct CollisionEvent {
    pub entity: u64,
    pub target: u64,
    pub impact_point: Vec2,
    pub my_velocity: Vec2,
    pub target_velocity: Vec2,
}

} // verus!
