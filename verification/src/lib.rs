//! Integer-grid physics for a two-paddle game: axis-aligned box colliders,
//! swept box collision detection, collision response and play-field rules.

pub mod vec2;
pub mod physics;
pub mod game;
