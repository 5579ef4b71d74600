//! What the physics reports about collisions.
pub mod collision_event;
