# cricket

Rust bindings for cricket, the robot kinematics and collision-checking code generator.

- `src/` is the library, verified with Verus: turning paths into the text cricket takes
  (and reporting the first one that is not UTF-8), the arguments of the `RobotInfo`
  constructor and of `generate_robot_source`, the shaping of cricket's results (per-link
  sphere lists ordered by link index, the set of allowed link pairs, bounding spheres keyed
  by frame), JSON parsing of cricket's data contexts, and the error type with its messages.
- `app/` holds the `cxx` bridge to cricket's C++ side, the `RobotInfo` handle and
  `generate_robot_source`, which make the FFI calls and hand plain values to the library,
  and the floating-point types (poses, spheres, bounds).
- `tests/` exercises the library.
