use vstd::prelude::*;

use crate::config::{
    ANGLE_STEPS, MAX_EXTENT, MAX_FORCE, MAX_PLAYERS, MAX_THRUST_STEP, MUZZLE_SPEED, POS_LIMIT,
    POS_TRANSIENT_LIMIT, TURN_RATE,
};

verus! {

/// One player's held-action flags for one frame, packed as a bitmask byte.
/// Equality is bitwise: two inputs are the same iff every flag matches.
#[derive(Clone, Copy, Debug, PartialEq, Eq, Structural)]
pub struct Input {
    pub inp: u8,
}

/// How trustworthy a per-player per-frame input entry is.
///
/// `Confirmed` values are final and never change retroactively. `Predicted`
/// values are placeholders subject to later correction. `Disconnected` means
/// the player's input is treated as zero for that frame and permanently.
#[derive(Clone, Copy, Debug, PartialEq, Eq, Structural)]
pub enum InputStatus {
    Confirmed,
    Predicted,
    Disconnected,
}

/// Velocity in micro-units per frame, one component per axis.
#[derive(Clone, Copy, Debug, PartialEq, Eq, Structural)]
pub struct Velocity {
    pub x: i64,
    pub y: i64,
}

/// Boundary policy and steering capability of an entity.
#[derive(Clone, Copy, Debug, PartialEq, Eq, Structural)]
pub struct Movable {
    /// Destroyed beyond the arena margin instead of wrapping to the far edge.
    pub auto_despawn: bool,
    /// Facing follows the entity's angular velocity.
    pub steerable: bool,
}

/// Angular rate in facing steps per frame.
#[derive(Clone, Copy, Debug, PartialEq, Eq, Structural)]
pub struct AngularVelocity {
    pub angle: i64,
}

/// Thrust state of a ship.
#[derive(Clone, Copy, Debug, PartialEq, Eq, Structural)]
pub struct ThrustEngine {
    pub on: bool,
    pub force: i64,
}

/// An axis-aligned bounding box extent, in micro-units.
#[derive(Clone, Copy, Debug, PartialEq, Eq, Structural)]
pub struct Extent {
    pub x: i64,
    pub y: i64,
}

/// Ship data for a player-controlled entity.
#[derive(Clone, Copy, Debug, PartialEq, Eq, Structural)]
pub struct PlayerEntity {
    /// Whether this ship belongs to the local player.
    pub ego: bool,
    /// Index of the player's input stream, stable for the session.
    pub handle: usize,
    pub team: bool,
    pub size: Extent,
    /// Whether the fire flag was held on the previous frame; firing happens
    /// only on the flag's rising edge, so this is part of simulated state.
    pub prev_fire: bool,
}

/// Projectile data.
#[derive(Clone, Copy, Debug, PartialEq, Eq, Structural)]
pub struct Laser {
    pub player_handle: usize,
    pub player_team: bool,
    pub size: Extent,
}

/// What kind of simulated object an entity is.
#[derive(Clone, Copy, Debug, PartialEq, Eq, Structural)]
pub enum EntityKind {
    Player(PlayerEntity),
    Laser(Laser),
}

/// Marker for objects that exist for the duration of one round and are torn
/// down with it.
#[derive(Clone, Copy, Debug, PartialEq, Eq, Structural)]
pub struct RoundEntity;

/// Marker for a visual explosion effect; purely cosmetic, so it carries no
/// simulation state and never enters a snapshot or checksum.
#[derive(Clone, Copy, Debug, PartialEq, Eq, Structural)]
pub struct Explosion;

/// The authoritative frame counter, incremented exactly once per tick.
#[derive(Clone, Copy, Debug, PartialEq, Eq, Hash, Structural)]
pub struct FrameCount {
    pub frame: u32,
}

/// One simulated object: everything about it that must evolve
/// deterministically and be captured by snapshots.
#[derive(Clone, Copy, Debug, PartialEq, Eq, Structural)]
pub struct SimEntity {
    /// Identity, assigned in strictly increasing order at spawn.
    pub id: u64,
    pub pos_x: i64,
    pub pos_y: i64,
    pub velocity: Velocity,
    /// Facing, as a step in `0..ANGLE_STEPS` around the circle.
    pub angle: u8,
    pub angular_velocity: AngularVelocity,
    pub thrust_engine: ThrustEngine,
    pub movable: Movable,
    pub kind: EntityKind,
}

/// A value-copy of all simulation-relevant state at a frame boundary.
///
/// The entity table is kept sorted by ascending id; every rule that walks it
/// does so in that order, which makes iteration order an explicit contract
/// rather than an artifact of a container.
pub struct GameState {
    pub frame: FrameCount,
    /// Number of input streams; player handles index into `0..num_players`.
    pub num_players: usize,
    /// The next entity id to hand out.
    pub next_id: u64,
    pub entities: Vec<SimEntity>,
}

/// The mathematical view of a `GameState`.
pub ghost struct StateModel {
    pub frame: int,
    pub num_players: int,
    pub next_id: int,
    pub entities: Seq<SimEntity>,
}

/// The per-axis velocity bound an entity may reach while the frame whose
/// counter is `frame` is being simulated. Thrust is uncapped, but it adds at
/// most `MAX_THRUST_STEP` per frame to a ship that spawns at rest, and a
/// laser adds at most one world unit of muzzle speed to its shooter's
/// velocity at spawn — so velocities stay far inside `i64` for every frame a
/// 32-bit counter can reach.
pub open spec fn vel_slack(e: SimEntity, frame: int) -> int {
    match e.kind {
        EntityKind::Player(_) => MAX_THRUST_STEP * (frame + 1),
        EntityKind::Laser(_) => MAX_THRUST_STEP * (frame + 1) + MUZZLE_SPEED,
    }
}

/// The velocity bound that holds at a frame boundary, before the frame is
/// simulated: one `MAX_THRUST_STEP` tighter than `vel_slack`.
pub open spec fn vel_tight(e: SimEntity, frame: int) -> int {
    match e.kind {
        EntityKind::Player(_) => MAX_THRUST_STEP * frame,
        EntityKind::Laser(_) => MAX_THRUST_STEP * frame + MUZZLE_SPEED,
    }
}

/// Well-formedness of a single entity relative to the player count and the
/// state's frame, with the position bound as a parameter: positions are
/// normally within `POS_LIMIT`, but the movement rule also accepts states
/// whose positions lie transiently beyond the arena.
pub open spec fn entity_wf_at(
    e: SimEntity,
    num_players: int,
    frame: int,
    pos_bound: int,
) -> bool {
    &&& 0 <= e.angle < ANGLE_STEPS
    &&& -vel_slack(e, frame) <= e.velocity.x <= vel_slack(e, frame)
    &&& -vel_slack(e, frame) <= e.velocity.y <= vel_slack(e, frame)
    &&& -pos_bound <= e.pos_x <= pos_bound
    &&& -pos_bound <= e.pos_y <= pos_bound
    &&& -TURN_RATE <= e.angular_velocity.angle <= TURN_RATE
    &&& 0 <= e.thrust_engine.force <= MAX_FORCE
    &&& match e.kind {
        EntityKind::Player(p) => {
            &&& p.handle < num_players
            &&& 0 <= p.size.x <= MAX_EXTENT
            &&& 0 <= p.size.y <= MAX_EXTENT
        },
        EntityKind::Laser(l) => {
            &&& l.player_handle < num_players
            &&& 0 <= l.size.x <= MAX_EXTENT
            &&& 0 <= l.size.y <= MAX_EXTENT
        },
    }
}

/// Well-formedness of a single entity at the standard position bound.
pub open spec fn entity_wf(e: SimEntity, num_players: int, frame: int) -> bool {
    entity_wf_at(e, num_players, frame, POS_LIMIT as int)
}

/// Whether an entity's velocity is within the frame-boundary bound.
pub open spec fn entity_vel_tight(e: SimEntity, frame: int) -> bool {
    &&& -vel_tight(e, frame) <= e.velocity.x <= vel_tight(e, frame)
    &&& -vel_tight(e, frame) <= e.velocity.y <= vel_tight(e, frame)
}

/// How many entities of a table are player ships. Players are only ever
/// created at round setup, so this count never grows during a session.
pub open spec fn count_players(s: Seq<SimEntity>) -> int
    decreases s.len(),
{
    if s.len() == 0 {
        0
    } else {
        count_players(s.drop_last()) + if s.last().kind is Player {
            1int
        } else {
            0int
        }
    }
}

/// Core well-formedness of a state model: bounded fields, a table sorted by
/// strictly ascending id, an id generator ahead of every live entity, and no
/// more player ships than input streams.
pub open spec fn model_wf_core(m: StateModel) -> bool {
    &&& 0 < m.num_players <= MAX_PLAYERS
    &&& 0 <= m.frame <= u32::MAX
    &&& 0 <= m.next_id
    &&& forall|i: int| 0 <= i < m.entities.len() ==> entity_wf(
        #[trigger] m.entities[i],
        m.num_players,
        m.frame,
    )
    &&& forall|i: int, j: int|
        0 <= i < j < m.entities.len() ==> #[trigger] m.entities[i].id < #[trigger] m.entities[j].id
    &&& forall|i: int| 0 <= i < m.entities.len() ==> #[trigger] m.entities[i].id < m.next_id
    &&& count_players(m.entities) <= m.num_players
}

/// Like the core invariant, but admitting positions transiently beyond the
/// arena: the state the movement rule accepts, whose wrapping and despawning
/// re-establish the standard bound.
pub open spec fn model_wf_pre_move(m: StateModel) -> bool {
    &&& 0 < m.num_players <= MAX_PLAYERS
    &&& 0 <= m.frame <= u32::MAX
    &&& 0 <= m.next_id
    &&& forall|i: int| 0 <= i < m.entities.len() ==> entity_wf_at(
        #[trigger] m.entities[i],
        m.num_players,
        m.frame,
        POS_TRANSIENT_LIMIT as int,
    )
    &&& forall|i: int, j: int|
        0 <= i < j < m.entities.len() ==> #[trigger] m.entities[i].id < #[trigger] m.entities[j].id
    &&& forall|i: int| 0 <= i < m.entities.len() ==> #[trigger] m.entities[i].id < m.next_id
    &&& count_players(m.entities) <= m.num_players
}

/// Whether every entity's velocity is within the frame-boundary bound.
pub open spec fn model_vel_tight(m: StateModel) -> bool {
    forall|i: int| 0 <= i < m.entities.len() ==> entity_vel_tight(#[trigger] m.entities[i], m.frame)
}

/// Full well-formedness at a frame boundary: the core invariant, the
/// boundary velocity bound, and a bound tying the id generator to the frame
/// number so that id allocation can never overflow within a session (at most
/// `num_players` lasers spawn per frame).
pub open spec fn model_wf(m: StateModel) -> bool {
    &&& model_wf_core(m)
    &&& model_vel_tight(m)
    &&& m.next_id <= (m.frame + 1) * m.num_players
}

impl GameState {
    /// The mathematical value of this state.
    pub open spec fn model(self) -> StateModel {
        StateModel {
            frame: self.frame.frame as int,
            num_players: self.num_players as int,
            next_id: self.next_id as int,
            entities: self.entities@,
        }
    }

    pub open spec fn wf(self) -> bool {
        model_wf(self.model())
    }

    pub open spec fn wf_core(self) -> bool {
        model_wf_core(self.model())
    }

    pub open spec fn wf_pre_move(self) -> bool {
        model_wf_pre_move(self.model())
    }

    /// Save: an independent value-copy of the full simulation state.
    pub fn snapshot(&self) -> (s: GameState)
        ensures
            s.model() == self.model(),
    {
        let mut entities: Vec<SimEntity> = Vec::new();
        let n = self.entities.len();
        for i in 0..n
            invariant
                entities@ == self.entities@.take(i as int),
                n == self.entities.len(),
        {
            entities.push(self.entities[i]);
            proof {
                assert(entities@ =~= self.entities@.take(i + 1));
            }
        }
        proof {
            assert(entities@ =~= self.entities@);
        }
        let s = GameState {
            frame: self.frame,
            num_players: self.num_players,
            next_id: self.next_id,
            entities,
        };
        proof {
            assert(s.model() =~= self.model());
        }
        s
    }

    /// Bit-for-bit equality of two states, field by field in table order.
    pub fn state_eq(&self, other: &GameState) -> (r: bool)
        ensures
            r <==> self.model() =~= other.model(),
    {
        if self.frame.frame != other.frame.frame
            || self.num_players != other.num_players
            || self.next_id != other.next_id
            || self.entities.len() != other.entities.len()
        {
            return false;
        }
        let n = self.entities.len();
        for i in 0..n
            invariant
                n == self.entities.len() == other.entities.len(),
                forall|j: int| 0 <= j < i ==> self.entities@[j] == other.entities@[j],
        {
            if self.entities[i] != other.entities[i] {
                return false;
            }
        }
        proof {
            assert(self.entities@ =~= other.entities@);
        }
        true
    }
}

/// The input byte an entity actually obeys: a disconnected player's entry
/// reads as zero, a confirmed or predicted entry reads as its bitmask.
pub open spec fn effective_input(pair: (Input, InputStatus)) -> u8 {
    match pair.1 {
        InputStatus::Disconnected => 0u8,
        _ => pair.0.inp,
    }
}

/// The per-player effective input bytes of a whole input table.
pub open spec fn effective_inputs(table: Seq<(Input, InputStatus)>) -> Seq<u8> {
    table.map_values(|pair: (Input, InputStatus)| effective_input(pair))
}

} // verus!
