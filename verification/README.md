# pong

A two-paddle ball game whose physics is a verified Verus library.

- `src/` is the library, in integer world units (`game::UNITS_PER_PIXEL` per
  pixel) with velocities as displacements per fixed step:
  - `vec2`: integer vectors and exact rounding helpers;
  - `physics::components`: box colliders and velocities;
  - `physics::time`: moments of a step as exact fractions on the extended line;
  - `physics` (`swept_aabb_2d`): swept box-against-box collision test;
  - `physics::contact`: proofs that a reported hit is exactly a contact within
    the step, and the first one;
  - `physics::detection`: all collisions of a step between moving bodies and
    between moving and fixed bodies;
  - `physics::response`: reflection, collision response, moving and resetting
    bodies;
  - `physics::events`: collision reports;
  - `game`: paddles, keys, play-field constraints and the paddle bounce.
- `app/` is the bevy application: it converts between bevy's pixels and the
  library's units, gathers bodies from the world and applies the results.
- `tests/` runs the library on concrete values.
