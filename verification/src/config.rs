use vstd::prelude::*;

verus! {

// All simulation quantities are integers in fixed-point "micro" units:
// one world unit is `SCALE` micro-units.  Keeping every field an integer is
// what makes the simulation bit-for-bit reproducible across peers: there is
// no floating-point environment to diverge on.

/// Micro-units per world unit.
pub const SCALE: i64 = 1_000_000;

/// Side length of the square arena, in micro-units (2000 world units).
pub const ARENA_SIZE: i64 = 2_000_000_000;

/// Half the arena side; the playfield spans [-HALF_ARENA, HALF_ARENA] on each axis.
pub const HALF_ARENA: i64 = 1_000_000_000;

/// Auto-despawning entities are destroyed once they are beyond the arena
/// edge by more than this margin.
pub const DESPAWN_MARGIN: i64 = 0;

/// Bound on any entity coordinate at a frame boundary: nothing survives a
/// step further out than the arena edge plus the despawn margin.
pub const POS_LIMIT: i64 = HALF_ARENA + DESPAWN_MARGIN;

/// Bound on a coordinate handed to the movement rule: a caller may hold an
/// entity transiently beyond the arena, and wrapping or despawning brings
/// every survivor back within `POS_LIMIT`.
pub const POS_TRANSIENT_LIMIT: i64 = 2_000_000_000;

/// Positions advance by velocity times this factor each frame
/// (a 1/60 s tick at a base speed of roughly 500 units per second).
pub const MOVE_FACTOR: i64 = 8;

/// Facing is discretized to this many steps around the circle.
pub const ANGLE_STEPS: u8 = 16;

/// Angular rate, in facing steps per frame, while a turn flag is held.
pub const TURN_RATE: i64 = 1;

/// Thrust force: each frame of thrust adds `force * dir` micro-units of
/// velocity, where `dir` is the unit facing vector in milli-units.
pub const THRUST_FORCE: i64 = 1;

/// Upper bound a well-formed thrust engine force may take.
pub const MAX_FORCE: i64 = 10;

/// Without thrust, velocity decays linearly toward zero by this much per
/// frame on one axis (0.01 world units per frame).
pub const DECAY: i64 = 10_000;

/// The most velocity one frame of thrust can add per axis: the facing
/// vector's milli-unit magnitude times the largest well-formed force.
pub const MAX_THRUST_STEP: i64 = 10_000;

/// The muzzle speed a laser adds to its shooter's velocity, per axis at
/// most: one world unit per frame.
pub const MUZZLE_SPEED: i64 = 1_000_000;

/// A laser leaves the muzzle with `dir * LASER_DIR_SCALE` micro-units of
/// velocity on top of the shooter's: one world unit per frame along facing.
pub const LASER_DIR_SCALE: i64 = 1000;

/// Players spawn on a circle of radius `HALF_ARENA / 2`; positions are
/// `dir * SPAWN_RADIUS_MILLI` with `dir` the unit vector in milli-units.
pub const SPAWN_RADIUS_MILLI: i64 = 500_000;

/// Bound on any entity bounding-box extent, in micro-units.
pub const MAX_EXTENT: i64 = 200_000_000;

/// Hard cap on the number of players in a session.
pub const MAX_PLAYERS: usize = 1000;

/// Ally ship bounding box, in micro-units.
pub const ALLY_SIZE_X: i64 = 84_000_000;
pub const ALLY_SIZE_Y: i64 = 93_000_000;

/// Enemy ship bounding box, in micro-units.
pub const ENEMY_SIZE_X: i64 = 75_000_000;
pub const ENEMY_SIZE_Y: i64 = 98_000_000;

/// Laser bounding box, in micro-units.
pub const LASER_SIZE_X: i64 = 4_500_000;
pub const LASER_SIZE_Y: i64 = 27_000_000;

} // verus!
