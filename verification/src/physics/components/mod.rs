//! Data attached to bodies: their box collider and their velocity.
pub mod collider;
pub mod velocity;
