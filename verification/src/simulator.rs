use vstd::prelude::*;

use crate::checksum::checksum_model;
use crate::codec::{INPUT_LEFT, INPUT_RIGHT, INPUT_SPACE, INPUT_UP};
use crate::components::{
    count_players, effective_inputs, entity_vel_tight, entity_wf, entity_wf_at, model_vel_tight,
    model_wf, AngularVelocity, EntityKind, Extent, FrameCount, GameState, Input, InputStatus,
    Laser, Movable, PlayerEntity, SimEntity, StateModel, ThrustEngine, Velocity,
};
use crate::config::{
    ALLY_SIZE_X, ALLY_SIZE_Y, ANGLE_STEPS, DECAY, ENEMY_SIZE_X, ENEMY_SIZE_Y, HALF_ARENA,
    LASER_DIR_SCALE, LASER_SIZE_X, LASER_SIZE_Y, MAX_EXTENT, MAX_FORCE, MAX_PLAYERS,
    MOVE_FACTOR, POS_LIMIT, POS_TRANSIENT_LIMIT, SPAWN_RADIUS_MILLI,
    THRUST_FORCE, TURN_RATE,
};

verus! {

/// Whether an entity is a player ship.
pub open spec fn is_player(e: SimEntity) -> bool {
    e.kind is Player
}

/// Unit facing vector for a facing step, x component in milli-units.
pub open spec fn dir_x_model(a: int) -> int {
    if a == 0 { 1000 }
    else if a == 1 { 924 }
    else if a == 2 { 707 }
    else if a == 3 { 383 }
    else if a == 4 { 0 }
    else if a == 5 { -383 }
    else if a == 6 { -707 }
    else if a == 7 { -924 }
    else if a == 8 { -1000 }
    else if a == 9 { -924 }
    else if a == 10 { -707 }
    else if a == 11 { -383 }
    else if a == 12 { 0 }
    else if a == 13 { 383 }
    else if a == 14 { 707 }
    else { 924 }
}

/// Unit facing vector for a facing step, y component in milli-units.
pub open spec fn dir_y_model(a: int) -> int {
    if a == 0 { 0 }
    else if a == 1 { 383 }
    else if a == 2 { 707 }
    else if a == 3 { 924 }
    else if a == 4 { 1000 }
    else if a == 5 { 924 }
    else if a == 6 { 707 }
    else if a == 7 { 383 }
    else if a == 8 { 0 }
    else if a == 9 { -383 }
    else if a == 10 { -707 }
    else if a == 11 { -924 }
    else if a == 12 { -1000 }
    else if a == 13 { -924 }
    else if a == 14 { -707 }
    else { -383 }
}

/// Table lookup for the facing vector's x component.
fn dir_x(a: u8) -> (r: i64)
    requires
        a < ANGLE_STEPS,
    ensures
        r == dir_x_model(a as int),
        -1000 <= r <= 1000,
{
    match a {
        0 => 1000,
        1 => 924,
        2 => 707,
        3 => 383,
        4 => 0,
        5 => -383,
        6 => -707,
        7 => -924,
        8 => -1000,
        9 => -924,
        10 => -707,
        11 => -383,
        12 => 0,
        13 => 383,
        14 => 707,
        _ => 924,
    }
}

/// Table lookup for the facing vector's y component.
fn dir_y(a: u8) -> (r: i64)
    requires
        a < ANGLE_STEPS,
    ensures
        r == dir_y_model(a as int),
        -1000 <= r <= 1000,
{
    match a {
        0 => 0,
        1 => 383,
        2 => 707,
        3 => 924,
        4 => 1000,
        5 => 924,
        6 => 707,
        7 => 383,
        8 => 0,
        9 => -383,
        10 => -707,
        11 => -924,
        12 => -1000,
        13 => -924,
        14 => -707,
        _ => -383,
    }
}

/// Absolute value of a velocity component.
pub open spec fn abs_model(v: int) -> int {
    if v < 0 { -v } else { v }
}

/// Linear decay toward zero by one decay step, never overshooting.
pub open spec fn decay_model(v: int) -> int {
    if v > DECAY {
        v - DECAY
    } else if v < -DECAY {
        v + DECAY
    } else {
        0
    }
}

/// The angular rate selected by the turn flags; left takes precedence over
/// right, both or neither yield zero net turn only when neither flag is set.
pub open spec fn turn_rate_model(inp: u8) -> int {
    if inp & INPUT_LEFT != 0 {
        TURN_RATE as int
    } else if inp & INPUT_RIGHT != 0 {
        -TURN_RATE as int
    } else {
        0
    }
}

/// The velocity a ship obeys after one frame of its thrust flag: thrust
/// accelerates along the facing vector by the fixed force constant, with no
/// cap; without thrust, the axis whose magnitude is larger decays first
/// (ties decay the x axis).
pub open spec fn thrusted_velocity(e: SimEntity, inp: u8) -> Velocity {
    if inp & INPUT_UP != 0 {
        Velocity {
            x: (e.velocity.x + dir_x_model(e.angle as int) * e.thrust_engine.force) as i64,
            y: (e.velocity.y + dir_y_model(e.angle as int) * e.thrust_engine.force) as i64,
        }
    } else if abs_model(e.velocity.x as int) >= abs_model(e.velocity.y as int) {
        Velocity { x: decay_model(e.velocity.x as int) as i64, y: e.velocity.y }
    } else {
        Velocity { x: e.velocity.x, y: decay_model(e.velocity.y as int) as i64 }
    }
}

/// A player ship after reading its input byte for the frame: only the
/// velocity and the angular rate change under this rule.
pub open spec fn player_update_model(e: SimEntity, inp: u8) -> SimEntity {
    SimEntity {
        id: e.id,
        pos_x: e.pos_x,
        pos_y: e.pos_y,
        velocity: thrusted_velocity(e, inp),
        angle: e.angle,
        angular_velocity: AngularVelocity { angle: turn_rate_model(inp) as i64 },
        thrust_engine: e.thrust_engine,
        movable: e.movable,
        kind: e.kind,
    }
}

/// One frame of the input rule keeps a ship well formed: uncapped thrust
/// adds at most `MAX_THRUST_STEP` per axis to a boundary-bounded velocity,
/// and decay only shrinks a component.
proof fn lemma_player_update_wf(e: SimEntity, inp: u8, num_players: int, frame: int)
    requires
        entity_wf(e, num_players, frame),
        entity_vel_tight(e, frame),
        0 <= frame,
    ensures
        entity_wf(player_update_model(e, inp), num_players, frame),
{
    let dx = dir_x_model(e.angle as int);
    let dy = dir_y_model(e.angle as int);
    let force = e.thrust_engine.force;
    assert(-1000 <= dx <= 1000 && -1000 <= dy <= 1000);
    assert(-10000 <= dx * force <= 10000 && -10000 <= dy * force <= 10000) by (nonlinear_arith)
        requires
            -1000 <= dx <= 1000,
            -1000 <= dy <= 1000,
            0 <= force <= 10,
    ;
}

/// An entity after the input-application rule: player ships obey the byte of
/// their handle, everything else is untouched.
pub open spec fn apply_input_entity(e: SimEntity, inputs: Seq<u8>) -> SimEntity {
    match e.kind {
        EntityKind::Player(p) => player_update_model(e, inputs[p.handle as int]),
        EntityKind::Laser(_) => e,
    }
}

/// The whole state after the input-application rule, players in table order.
pub open spec fn apply_inputs_model(m: StateModel, inputs: Seq<u8>) -> StateModel {
    StateModel {
        frame: m.frame,
        num_players: m.num_players,
        next_id: m.next_id,
        entities: m.entities.map_values(|e: SimEntity| apply_input_entity(e, inputs)),
    }
}

/// Two tables whose entries agree pointwise on being player ships hold the
/// same number of players.
pub proof fn lemma_count_players_pointwise(s1: Seq<SimEntity>, s2: Seq<SimEntity>)
    requires
        s1.len() == s2.len(),
        forall|i: int| 0 <= i < s1.len() ==> is_player(#[trigger] s1[i]) == is_player(#[trigger] s2[i]),
    ensures
        count_players(s1) == count_players(s2),
    decreases s1.len(),
{
    if s1.len() > 0 {
        lemma_count_players_pointwise(s1.drop_last(), s2.drop_last());
    }
}

/// Player count distributes over concatenation.
pub proof fn lemma_count_players_append(a: Seq<SimEntity>, b: Seq<SimEntity>)
    ensures
        count_players(a + b) == count_players(a) + count_players(b),
    decreases b.len(),
{
    if b.len() == 0 {
        assert(a + b =~= a);
    } else {
        assert((a + b).drop_last() =~= a + b.drop_last());
        lemma_count_players_append(a, b.drop_last());
    }
}

/// A table without player ships counts zero players.
pub proof fn lemma_count_players_none(s: Seq<SimEntity>)
    requires
        forall|i: int| 0 <= i < s.len() ==> !is_player(#[trigger] s[i]),
    ensures
        count_players(s) == 0,
    decreases s.len(),
{
    if s.len() > 0 {
        lemma_count_players_none(s.drop_last());
    }
}

/// Absolute value of a bounded component.
fn abs_i64(v: i64) -> (r: i64)
    requires
        v > i64::MIN,
    ensures
        r == abs_model(v as int),
{
    if v < 0 { -v } else { v }
}

/// One decay step toward zero.
fn decay_vel(v: i64) -> (r: i64)
    requires
        i64::MIN + DECAY < v,
    ensures
        r == decay_model(v as int),
{
    if v > DECAY {
        v - DECAY
    } else if v < -DECAY {
        v + DECAY
    } else {
        0
    }
}

/// Applies each player's input byte for the frame: turn flags set the
/// angular rate (left checked before right), the thrust flag accelerates
/// along facing with no cap, and thrustless ships decay the faster axis
/// toward zero (ties decay x). Positions, facings, thrust engines and the
/// table itself are untouched. Disconnected players read as zero input and
/// so do nothing.
pub fn apply_inputs(state: &mut GameState, inputs: &Vec<(Input, InputStatus)>)
    requires
        old(state).wf_core(),
        model_vel_tight(old(state).model()),
        inputs@.len() == old(state).num_players,
    ensures
        final(state).model() == apply_inputs_model(
            old(state).model(),
            effective_inputs(inputs@),
        ),
        final(state).wf_core(),
{
    let ghost eff = effective_inputs(inputs@);
    let ghost orig = old(state).entities@;
    let n = state.entities.len();
    for i in 0..n
        invariant
            n == state.entities.len(),
            state.frame == old(state).frame,
            state.num_players == old(state).num_players,
            state.next_id == old(state).next_id,
            inputs@.len() == state.num_players,
            orig == old(state).entities@,
            orig.len() == n,
            eff == effective_inputs(inputs@),
            old(state).wf_core(),
            forall|j: int| 0 <= j < i ==> state.entities@[j] == apply_input_entity(
                orig[j],
                eff,
            ),
            forall|j: int| i <= j < n ==> state.entities@[j] == orig[j],
    {
        let e = state.entities[i];
        assert(e == orig[i as int]);
        assert(entity_wf(e, old(state).num_players as int, old(state).frame.frame as int));
        match e.kind {
            EntityKind::Player(p) => {
                let pair = inputs[p.handle];
                let inp: u8 = match pair.1 {
                    InputStatus::Disconnected => 0u8,
                    _ => pair.0.inp,
                };
                assert(inp == eff[p.handle as int]);
                let dx = dir_x(e.angle);
                let dy = dir_y(e.angle);
                let mut vx = e.velocity.x;
                let mut vy = e.velocity.y;
                let force = e.thrust_engine.force;
                proof {
                    assert(-10000 <= dx * force <= 10000 && -10000 <= dy * force <= 10000)
                        by (nonlinear_arith)
                        requires
                            -1000 <= dx <= 1000,
                            -1000 <= dy <= 1000,
                            0 <= force <= 10,
                    ;
                }
                if inp & INPUT_UP != 0 {
                    vx = vx + dx * force;
                    vy = vy + dy * force;
                } else {
                    let ax = abs_i64(vx);
                    let ay = abs_i64(vy);
                    if ax >= ay {
                        vx = decay_vel(vx);
                    } else {
                        vy = decay_vel(vy);
                    }
                }
                let rate: i64 = if inp & INPUT_LEFT != 0 {
                    TURN_RATE
                } else if inp & INPUT_RIGHT != 0 {
                    -TURN_RATE
                } else {
                    0
                };
                let ne = SimEntity {
                    id: e.id,
                    pos_x: e.pos_x,
                    pos_y: e.pos_y,
                    velocity: Velocity { x: vx, y: vy },
                    angle: e.angle,
                    angular_velocity: AngularVelocity { angle: rate },
                    thrust_engine: e.thrust_engine,
                    movable: e.movable,
                    kind: e.kind,
                };
                assert(ne == apply_input_entity(orig[i as int], eff));
                state.entities.set(i, ne);
            },
            EntityKind::Laser(_) => {
                assert(e == apply_input_entity(orig[i as int], eff));
            },
        }
    }
    proof {
        let mapped = orig.map_values(|e: SimEntity| apply_input_entity(e, eff));
        assert(state.entities@ =~= mapped);
        assert(final(state).model() =~= apply_inputs_model(old(state).model(), eff));
        let np = old(state).num_players as int;
        let fr = old(state).frame.frame as int;
        assert forall|i: int| 0 <= i < mapped.len() implies entity_wf(
            #[trigger] mapped[i],
            np,
            fr,
        ) by {
            assert(entity_wf(orig[i], np, fr));
            assert(entity_vel_tight(orig[i], fr));
            match orig[i].kind {
                EntityKind::Player(p) => {
                    lemma_player_update_wf(orig[i], eff[p.handle as int], np, fr);
                },
                EntityKind::Laser(_) => {},
            }
        }
        assert forall|i: int| 0 <= i < mapped.len() implies is_player(#[trigger] mapped[i])
            == is_player(orig[i]) by {}
        lemma_count_players_pointwise(mapped, orig);
    }
}

/// Whether an entity fires this frame: a player ship whose fire flag is held
/// now but was not held on the previous frame (rising edge).
pub open spec fn wants_fire(e: SimEntity, inputs: Seq<u8>) -> bool {
    match e.kind {
        EntityKind::Player(p) => inputs[p.handle as int] & INPUT_SPACE != 0 && !p.prev_fire,
        EntityKind::Laser(_) => false,
    }
}

/// An entity after recording this frame's fire flag as the new edge-detection
/// state; only player ships carry that state.
pub open spec fn update_prev_fire(e: SimEntity, inputs: Seq<u8>) -> SimEntity {
    match e.kind {
        EntityKind::Player(p) => SimEntity {
            id: e.id,
            pos_x: e.pos_x,
            pos_y: e.pos_y,
            velocity: e.velocity,
            angle: e.angle,
            angular_velocity: e.angular_velocity,
            thrust_engine: e.thrust_engine,
            movable: e.movable,
            kind: EntityKind::Player(
                PlayerEntity {
                    ego: p.ego,
                    handle: p.handle,
                    team: p.team,
                    size: p.size,
                    prev_fire: inputs[p.handle as int] & INPUT_SPACE != 0,
                },
            ),
        },
        EntityKind::Laser(_) => e,
    }
}

/// The laser a firing ship spawns: the ship's position and facing, the
/// ship's velocity plus one world unit of muzzle speed along facing, an
/// auto-despawning non-steerable mover tagged with the shooter's handle and
/// team.
pub open spec fn spawn_laser(e: SimEntity, p: PlayerEntity, id: int) -> SimEntity {
    SimEntity {
        id: id as u64,
        pos_x: e.pos_x,
        pos_y: e.pos_y,
        velocity: Velocity {
            x: (e.velocity.x + dir_x_model(e.angle as int) * LASER_DIR_SCALE) as i64,
            y: (e.velocity.y + dir_y_model(e.angle as int) * LASER_DIR_SCALE) as i64,
        },
        angle: e.angle,
        angular_velocity: AngularVelocity { angle: 0 },
        thrust_engine: ThrustEngine { on: false, force: 0 },
        movable: Movable { auto_despawn: true, steerable: false },
        kind: EntityKind::Laser(
            Laser {
                player_handle: p.handle,
                player_team: p.team,
                size: Extent { x: LASER_SIZE_X, y: LASER_SIZE_Y },
            },
        ),
    }
}

/// The lasers spawned by the first `n` entities, in table order, with ids
/// allocated consecutively from `next_id` in that same order.
pub open spec fn spawned_lasers(s: Seq<SimEntity>, inputs: Seq<u8>, next_id: int, n: int) -> Seq<
    SimEntity,
>
    decreases n,
{
    if n <= 0 {
        Seq::empty()
    } else {
        let prev = spawned_lasers(s, inputs, next_id, n - 1);
        let e = s[n - 1];
        if wants_fire(e, inputs) {
            match e.kind {
                EntityKind::Player(p) => prev.push(spawn_laser(e, p, next_id + prev.len())),
                EntityKind::Laser(_) => prev,
            }
        } else {
            prev
        }
    }
}

/// The whole state after the firing rule: every ship's edge-detection state
/// updated, then every newly spawned laser appended in table order with
/// strictly increasing fresh ids.
pub open spec fn player_fire_model(m: StateModel, inputs: Seq<u8>) -> StateModel {
    let spawned = spawned_lasers(m.entities, inputs, m.next_id, m.entities.len() as int);
    StateModel {
        frame: m.frame,
        num_players: m.num_players,
        next_id: m.next_id + spawned.len(),
        entities: m.entities.map_values(|e: SimEntity| update_prev_fire(e, inputs)) + spawned,
    }
}

/// The handle of the player a simulated object belongs to: its own input
/// stream for a ship, its shooter's for a laser.
pub open spec fn owner_handle(e: SimEntity) -> int {
    match e.kind {
        EntityKind::Player(p) => p.handle as int,
        EntityKind::Laser(l) => l.player_handle as int,
    }
}

/// Whether an entity is a laser fired by the given handle.
pub open spec fn laser_from(e: SimEntity, handle: int) -> bool {
    e.kind is Laser && owner_handle(e) == handle
}

/// Whether a table holds a laser fired by the given handle.
pub open spec fn has_laser_from(s: Seq<SimEntity>, handle: int) -> bool {
    exists|j: int| 0 <= j < s.len() && #[trigger] laser_from(s[j], handle)
}

/// A firing ship's laser appears among the spawns of any prefix that covers
/// the ship.
proof fn lemma_spawned_contains(s: Seq<SimEntity>, inputs: Seq<u8>, next_id: int, n: int, i: int)
    requires
        0 <= i < n <= s.len(),
        wants_fire(s[i], inputs),
    ensures
        has_laser_from(spawned_lasers(s, inputs, next_id, n), owner_handle(s[i])),
    decreases n,
{
    let prev = spawned_lasers(s, inputs, next_id, n - 1);
    let cur = spawned_lasers(s, inputs, next_id, n);
    if n - 1 == i {
        match s[i].kind {
            EntityKind::Player(p) => {
                let sp = spawn_laser(s[i], p, next_id + prev.len());
                assert(cur[prev.len() as int] == sp);
                assert(laser_from(sp, owner_handle(s[i])));
            },
            EntityKind::Laser(_) => {},
        }
    } else {
        lemma_spawned_contains(s, inputs, next_id, n - 1, i);
        let j = choose|j: int| 0 <= j < prev.len() && #[trigger] laser_from(
            prev[j],
            owner_handle(s[i]),
        );
        assert(cur[j] == prev[j]);
        assert(laser_from(cur[j], owner_handle(s[i])));
    }
}

/// The projectile exists from its deterministic spawn frame on: a ship that
/// holds the fire flag this frame without having held it on the previous
/// one leaves a laser tagged with its handle in the firing rule's result.
pub proof fn lemma_rising_edge_spawns(m: StateModel, inputs: Seq<u8>, i: int)
    requires
        0 <= i < m.entities.len(),
        wants_fire(m.entities[i], inputs),
    ensures
        has_laser_from(player_fire_model(m, inputs).entities, owner_handle(m.entities[i])),
{
    let n = m.entities.len() as int;
    lemma_spawned_contains(m.entities, inputs, m.next_id, n, i);
    let spawned = spawned_lasers(m.entities, inputs, m.next_id, n);
    let mapped = m.entities.map_values(|e: SimEntity| update_prev_fire(e, inputs));
    let h = owner_handle(m.entities[i]);
    let j = choose|j: int| 0 <= j < spawned.len() && #[trigger] laser_from(spawned[j], h);
    assert((mapped + spawned)[mapped.len() + j] == spawned[j]);
    assert(laser_from((mapped + spawned)[mapped.len() + j], h));
}

/// Without a rising edge among the first `n` entities, nothing spawns.
proof fn lemma_spawned_empty(s: Seq<SimEntity>, inputs: Seq<u8>, next_id: int, n: int)
    requires
        0 <= n <= s.len(),
        forall|i: int| 0 <= i < n ==> !wants_fire(#[trigger] s[i], inputs),
    ensures
        spawned_lasers(s, inputs, next_id, n).len() == 0,
    decreases n,
{
    if n > 0 {
        lemma_spawned_empty(s, inputs, next_id, n - 1);
    }
}

/// And no entity exists before its spawn frame: when no ship fires a rising
/// edge, the firing rule creates nothing — the table only records the new
/// edge-detection state and the id generator stands still.
pub proof fn lemma_no_edge_no_spawn(m: StateModel, inputs: Seq<u8>)
    requires
        forall|i: int| 0 <= i < m.entities.len() ==> !wants_fire(#[trigger] m.entities[i], inputs),
    ensures
        player_fire_model(m, inputs).entities =~= m.entities.map_values(
            |e: SimEntity| update_prev_fire(e, inputs),
        ),
        player_fire_model(m, inputs).next_id == m.next_id,
{
    lemma_spawned_empty(m.entities, inputs, m.next_id, m.entities.len() as int);
}

/// The player count of a table is never negative.
pub proof fn lemma_count_players_nonneg(s: Seq<SimEntity>)
    ensures
        count_players(s) >= 0,
    decreases s.len(),
{
    if s.len() > 0 {
        lemma_count_players_nonneg(s.drop_last());
    }
}

/// Extending a prefix by one entity adds its player count.
proof fn lemma_count_players_take_succ(s: Seq<SimEntity>, n: int)
    requires
        0 <= n < s.len(),
    ensures
        count_players(s.take(n + 1)) == count_players(s.take(n)) + if is_player(s[n]) {
            1int
        } else {
            0int
        },
{
    assert(s.take(n + 1).drop_last() =~= s.take(n));
    assert(s.take(n + 1).last() == s[n]);
}

/// A prefix never holds more players than the whole table.
proof fn lemma_count_players_take_le(s: Seq<SimEntity>, n: int)
    requires
        0 <= n <= s.len(),
    ensures
        count_players(s.take(n)) <= count_players(s),
    decreases s.len() - n,
{
    if n == s.len() {
        assert(s.take(n) =~= s);
    } else {
        lemma_count_players_take_succ(s, n);
        lemma_count_players_take_le(s, n + 1);
    }
}

/// At most one laser spawns per player ship among the first `n` entities.
proof fn lemma_spawned_lasers_len(s: Seq<SimEntity>, inputs: Seq<u8>, next_id: int, n: int)
    requires
        0 <= n <= s.len(),
    ensures
        spawned_lasers(s, inputs, next_id, n).len() <= count_players(s.take(n)),
    decreases n,
{
    if n == 0 {
        assert(s.take(0) =~= Seq::<SimEntity>::empty());
    } else {
        lemma_spawned_lasers_len(s, inputs, next_id, n - 1);
        lemma_count_players_take_succ(s, n - 1);
    }
}

/// The spawned lasers are well formed: consecutive fresh ids in order, all
/// laser entities, each within the state bounds.
proof fn lemma_spawned_lasers_wf(
    s: Seq<SimEntity>,
    inputs: Seq<u8>,
    next_id: int,
    n: int,
    num_players: int,
    frame: int,
)
    requires
        0 <= n <= s.len(),
        0 <= next_id,
        0 <= frame,
        next_id + count_players(s) <= u64::MAX,
        forall|j: int| 0 <= j < s.len() ==> entity_wf(#[trigger] s[j], num_players, frame),
    ensures
        spawned_lasers(s, inputs, next_id, n).len() <= n,
        forall|i: int| 0 <= i < spawned_lasers(s, inputs, next_id, n).len()
            ==> (#[trigger] spawned_lasers(s, inputs, next_id, n)[i]).id == next_id + i,
        forall|i: int| 0 <= i < spawned_lasers(s, inputs, next_id, n).len() ==> entity_wf(
            #[trigger] spawned_lasers(s, inputs, next_id, n)[i],
            num_players,
            frame,
        ),
        forall|i: int| 0 <= i < spawned_lasers(s, inputs, next_id, n).len() ==> !is_player(
            #[trigger] spawned_lasers(s, inputs, next_id, n)[i],
        ),
    decreases n,
{
    if n > 0 {
        lemma_spawned_lasers_wf(s, inputs, next_id, n - 1, num_players, frame);
        lemma_spawned_lasers_len(s, inputs, next_id, n - 1);
        lemma_count_players_take_le(s, n - 1);
    }
}

/// Spawns one laser per firing ship, walking ships in ascending id order and
/// assigning fresh ids in strictly increasing allocation order, then records
/// this frame's fire flags for the next rising-edge test.
pub fn player_fire_system(state: &mut GameState, inputs: &Vec<(Input, InputStatus)>)
    requires
        old(state).wf_core(),
        inputs@.len() == old(state).num_players,
        old(state).next_id as int + old(state).num_players as int <= u64::MAX as int,
    ensures
        final(state).model() == player_fire_model(old(state).model(), effective_inputs(inputs@)),
        final(state).wf_core(),
        final(state).model().next_id <= old(state).model().next_id
            + old(state).model().num_players,
{
    let ghost eff = effective_inputs(inputs@);
    let ghost orig = old(state).entities@;
    let ghost nid0 = old(state).next_id as int;
    let n = state.entities.len();
    let mut spawned: Vec<SimEntity> = Vec::new();
    for i in 0..n
        invariant
            n == state.entities.len(),
            state.frame == old(state).frame,
            state.num_players == old(state).num_players,
            state.next_id == old(state).next_id,
            inputs@.len() == state.num_players,
            orig == old(state).entities@,
            orig.len() == n,
            nid0 == old(state).next_id as int,
            eff == effective_inputs(inputs@),
            old(state).wf_core(),
            old(state).next_id as int + old(state).num_players as int <= u64::MAX as int,
            forall|j: int| 0 <= j < i ==> state.entities@[j] == update_prev_fire(orig[j], eff),
            forall|j: int| i <= j < n ==> state.entities@[j] == orig[j],
            spawned@ == spawned_lasers(orig, eff, nid0, i as int),
    {
        let e = state.entities[i];
        assert(e == orig[i as int]);
        assert(entity_wf(e, old(state).num_players as int, old(state).frame.frame as int));
        match e.kind {
            EntityKind::Player(p) => {
                let pair = inputs[p.handle];
                let inp: u8 = match pair.1 {
                    InputStatus::Disconnected => 0u8,
                    _ => pair.0.inp,
                };
                assert(inp == eff[p.handle as int]);
                let firing = (inp & INPUT_SPACE != 0) && !p.prev_fire;
                let ne = SimEntity {
                    id: e.id,
                    pos_x: e.pos_x,
                    pos_y: e.pos_y,
                    velocity: e.velocity,
                    angle: e.angle,
                    angular_velocity: e.angular_velocity,
                    thrust_engine: e.thrust_engine,
                    movable: e.movable,
                    kind: EntityKind::Player(
                        PlayerEntity {
                            ego: p.ego,
                            handle: p.handle,
                            team: p.team,
                            size: p.size,
                            prev_fire: inp & INPUT_SPACE != 0,
                        },
                    ),
                };
                assert(ne == update_prev_fire(orig[i as int], eff));
                state.entities.set(i, ne);
                if firing {
                    proof {
                        lemma_spawned_lasers_len(orig, eff, nid0, i as int);
                        lemma_count_players_take_le(orig, i as int);
                        lemma_count_players_nonneg(orig.take(i as int));
                    }
                    let ldx = dir_x(e.angle) * LASER_DIR_SCALE;
                    let ldy = dir_y(e.angle) * LASER_DIR_SCALE;
                    let id = state.next_id + spawned.len() as u64;
                    let le = SimEntity {
                        id,
                        pos_x: e.pos_x,
                        pos_y: e.pos_y,
                        velocity: Velocity { x: e.velocity.x + ldx, y: e.velocity.y + ldy },
                        angle: e.angle,
                        angular_velocity: AngularVelocity { angle: 0 },
                        thrust_engine: ThrustEngine { on: false, force: 0 },
                        movable: Movable { auto_despawn: true, steerable: false },
                        kind: EntityKind::Laser(
                            Laser {
                                player_handle: p.handle,
                                player_team: p.team,
                                size: Extent { x: LASER_SIZE_X, y: LASER_SIZE_Y },
                            },
                        ),
                    };
                    assert(le == spawn_laser(orig[i as int], p, nid0 + spawned@.len()));
                    spawned.push(le);
                }
            },
            EntityKind::Laser(_) => {
                assert(e == update_prev_fire(orig[i as int], eff));
            },
        }
        proof {
            assert(spawned@ =~= spawned_lasers(orig, eff, nid0, i + 1));
        }
    }
    proof {
        lemma_spawned_lasers_len(orig, eff, nid0, n as int);
        lemma_count_players_take_le(orig, n as int);
        lemma_count_players_nonneg(orig.take(n as int));
        assert(orig.take(n as int) =~= orig);
    }
    let k = spawned.len();
    state.next_id = state.next_id + k as u64;
    state.entities.append(&mut spawned);
    proof {
        let m0 = old(state).model();
        let mapped = orig.map_values(|e: SimEntity| update_prev_fire(e, eff));
        let sp = spawned_lasers(orig, eff, nid0, n as int);
        assert(state.entities@ =~= mapped + sp);
        assert(final(state).model() =~= player_fire_model(m0, eff));
        // well-formedness of the new table
        lemma_spawned_lasers_wf(orig, eff, nid0, n as int, m0.num_players, m0.frame);
        assert forall|i: int| 0 <= i < mapped.len() implies entity_wf(
            #[trigger] mapped[i],
            m0.num_players,
            m0.frame,
        ) && is_player(mapped[i]) == is_player(orig[i]) && mapped[i].id == orig[i].id by {
            assert(entity_wf(orig[i], m0.num_players, m0.frame));
        }
        lemma_count_players_pointwise(mapped, orig);
        lemma_count_players_none(sp);
        lemma_count_players_append(mapped, sp);
        let ents = mapped + sp;
        assert forall|i: int, j: int| 0 <= i < j < ents.len() implies #[trigger] ents[i].id
            < #[trigger] ents[j].id by {
            if j < mapped.len() {
                assert(orig[i].id < orig[j].id);
            } else if i < mapped.len() {
                assert(ents[i].id < nid0);
                assert(ents[j].id == nid0 + (j - mapped.len()));
            } else {
                assert(ents[i].id == nid0 + (i - mapped.len()));
                assert(ents[j].id == nid0 + (j - mapped.len()));
            }
        }
        assert(final(state).wf_core());
    }
}

/// A coordinate after the wrapping rule: crossing an arena edge moves the
/// entity to the opposite edge, anything else is untouched.
pub open spec fn wrap_coord(v: int) -> int {
    if v > HALF_ARENA {
        -HALF_ARENA as int
    } else if v < -HALF_ARENA {
        HALF_ARENA as int
    } else {
        v
    }
}

/// Whether a position lies beyond the arena edge plus the despawn margin.
pub open spec fn out_of_margin(x: int, y: int) -> bool {
    x > POS_LIMIT || x < -POS_LIMIT || y > POS_LIMIT || y < -POS_LIMIT
}

/// A facing step advanced by a rate of at most one step, kept in range.
pub open spec fn rotate_angle(a: int, rate: int) -> int {
    let t = a + rate;
    if t < 0 {
        t + ANGLE_STEPS
    } else if t >= ANGLE_STEPS {
        t - ANGLE_STEPS
    } else {
        t
    }
}

/// An entity after the movement rule: position advances by velocity times
/// the move factor; wrapping entities then wrap per axis (y checked before
/// x), and steerable entities rotate by their angular rate.
pub open spec fn move_entity(e: SimEntity) -> SimEntity {
    SimEntity {
        id: e.id,
        pos_x: (if e.movable.auto_despawn {
            e.pos_x + e.velocity.x * MOVE_FACTOR
        } else {
            wrap_coord(e.pos_x + e.velocity.x * MOVE_FACTOR)
        }) as i64,
        pos_y: (if e.movable.auto_despawn {
            e.pos_y + e.velocity.y * MOVE_FACTOR
        } else {
            wrap_coord(e.pos_y + e.velocity.y * MOVE_FACTOR)
        }) as i64,
        velocity: e.velocity,
        angle: (if e.movable.steerable {
            rotate_angle(e.angle as int, e.angular_velocity.angle as int)
        } else {
            e.angle as int
        }) as u8,
        angular_velocity: e.angular_velocity,
        thrust_engine: e.thrust_engine,
        movable: e.movable,
        kind: e.kind,
    }
}

/// Whether a moved entity is destroyed by the boundary rule.
pub open spec fn despawned(e: SimEntity) -> bool {
    e.movable.auto_despawn && out_of_margin(e.pos_x as int, e.pos_y as int)
}

/// The first `n` entities after movement, in table order, with the
/// despawned ones removed.
pub open spec fn movable_entities(s: Seq<SimEntity>, n: int) -> Seq<SimEntity>
    decreases n,
{
    if n <= 0 {
        Seq::empty()
    } else {
        let prev = movable_entities(s, n - 1);
        let e = move_entity(s[n - 1]);
        if despawned(e) {
            prev
        } else {
            prev.push(e)
        }
    }
}

/// The whole state after the movement and boundary rule.
pub open spec fn movable_model(m: StateModel) -> StateModel {
    StateModel {
        frame: m.frame,
        num_players: m.num_players,
        next_id: m.next_id,
        entities: movable_entities(m.entities, m.entities.len() as int),
    }
}

/// The moved table is well formed: still sorted by id, ids and bounds
/// preserved, and no players created.
proof fn lemma_movable_entities_wf(
    s: Seq<SimEntity>,
    n: int,
    num_players: int,
    frame: int,
    id_bound: int,
)
    requires
        0 <= n <= s.len(),
        forall|j: int| 0 <= j < s.len() ==> entity_wf_at(
            #[trigger] s[j],
            num_players,
            frame,
            POS_TRANSIENT_LIMIT as int,
        ),
        forall|i: int, j: int| 0 <= i < j < s.len() ==> #[trigger] s[i].id < #[trigger] s[j].id,
        forall|j: int| 0 <= j < s.len() ==> #[trigger] s[j].id < id_bound,
    ensures
        movable_entities(s, n).len() <= n,
        forall|i: int| 0 <= i < movable_entities(s, n).len() ==> entity_wf(
            #[trigger] movable_entities(s, n)[i],
            num_players,
            frame,
        ),
        forall|i: int, j: int| 0 <= i < j < movable_entities(s, n).len()
            ==> (#[trigger] movable_entities(s, n)[i]).id < (#[trigger] movable_entities(s, n)[j]).id,
        forall|i: int| 0 <= i < movable_entities(s, n).len()
            ==> (#[trigger] movable_entities(s, n)[i]).id < id_bound,
        n > 0 ==> forall|i: int| 0 <= i < movable_entities(s, n).len()
            ==> (#[trigger] movable_entities(s, n)[i]).id <= s[n - 1].id,
        count_players(movable_entities(s, n)) <= count_players(s.take(n)),
    decreases n,
{
    if n > 0 {
        lemma_movable_entities_wf(s, n - 1, num_players, frame, id_bound);
        lemma_count_players_take_succ(s, n - 1);
        let prev = movable_entities(s, n - 1);
        let e = move_entity(s[n - 1]);
        assert(entity_wf_at(s[n - 1], num_players, frame, POS_TRANSIENT_LIMIT as int));
        if !despawned(e) {
            assert(entity_wf(e, num_players, frame));
            assert(prev.push(e).drop_last() =~= prev);
            lemma_count_players_nonneg(prev);
        }
    }
}

/// Advances every entity by its velocity, wraps non-despawning entities that
/// left the arena to the opposite edge, destroys auto-despawning entities
/// beyond the margin, and turns steerable entities by their angular rate.
/// Accepts positions transiently beyond the arena — such as an entity
/// standing just past an edge — and brings every survivor back within the
/// standard bound.
pub fn movable_system(state: &mut GameState)
    requires
        old(state).wf_pre_move(),
    ensures
        final(state).model() == movable_model(old(state).model()),
        final(state).wf_core(),
{
    let ghost orig = old(state).entities@;
    let n = state.entities.len();
    let mut out: Vec<SimEntity> = Vec::new();
    for i in 0..n
        invariant
            n == state.entities.len(),
            state.entities@ == orig,
            state.frame == old(state).frame,
            state.num_players == old(state).num_players,
            state.next_id == old(state).next_id,
            old(state).wf_pre_move(),
            out@ == movable_entities(orig, i as int),
    {
        let e = state.entities[i];
        assert(e == orig[i as int]);
        assert(entity_wf_at(
            e,
            old(state).num_players as int,
            old(state).frame.frame as int,
            POS_TRANSIENT_LIMIT as int,
        ));
        let nx = e.pos_x + e.velocity.x * MOVE_FACTOR;
        let ny = e.pos_y + e.velocity.y * MOVE_FACTOR;
        let fx: i64;
        let fy: i64;
        if e.movable.auto_despawn {
            fx = nx;
            fy = ny;
        } else {
            fy = if ny > HALF_ARENA {
                -HALF_ARENA
            } else if ny < -HALF_ARENA {
                HALF_ARENA
            } else {
                ny
            };
            fx = if nx > HALF_ARENA {
                -HALF_ARENA
            } else if nx < -HALF_ARENA {
                HALF_ARENA
            } else {
                nx
            };
        }
        let na: u8;
        if e.movable.steerable {
            let t = e.angle as i64 + e.angular_velocity.angle;
            na = if t < 0 {
                (t + ANGLE_STEPS as i64) as u8
            } else if t >= ANGLE_STEPS as i64 {
                (t - ANGLE_STEPS as i64) as u8
            } else {
                t as u8
            };
        } else {
            na = e.angle;
        }
        let me = SimEntity {
            id: e.id,
            pos_x: fx,
            pos_y: fy,
            velocity: e.velocity,
            angle: na,
            angular_velocity: e.angular_velocity,
            thrust_engine: e.thrust_engine,
            movable: e.movable,
            kind: e.kind,
        };
        assert(me == move_entity(orig[i as int]));
        if me.movable.auto_despawn && (me.pos_x > POS_LIMIT || me.pos_x < -POS_LIMIT
            || me.pos_y > POS_LIMIT || me.pos_y < -POS_LIMIT) {
            // destroyed by the boundary rule
            assert(despawned(me));
        } else {
            out.push(me);
        }
        proof {
            assert(out@ =~= movable_entities(orig, i + 1));
        }
    }
    state.entities = out;
    proof {
        assert(final(state).model() =~= movable_model(old(state).model()));
        let m0 = old(state).model();
        lemma_movable_entities_wf(orig, n as int, m0.num_players, m0.frame, m0.next_id);
        lemma_count_players_take_le(orig, n as int);
        assert(orig.take(n as int) =~= orig);
        assert(final(state).wf_core());
    }
}

/// The bounding-box extent an entity collides with.
pub open spec fn extent_of(e: SimEntity) -> Extent {
    match e.kind {
        EntityKind::Player(p) => p.size,
        EntityKind::Laser(l) => l.size,
    }
}

/// Axis-aligned bounding-box overlap: the centers are closer than the mean
/// of the two extents on both axes.
pub open spec fn aabb_overlap(a: SimEntity, b: SimEntity) -> bool {
    &&& abs_model(a.pos_x - b.pos_x) * 2 < extent_of(a).x + extent_of(b).x
    &&& abs_model(a.pos_y - b.pos_y) * 2 < extent_of(a).y + extent_of(b).y
}

/// Whether two entities form an opposing ship/laser pair that overlaps; only
/// such pairs collide, friendly fire passes through.
pub open spec fn opposing_hit(a: SimEntity, b: SimEntity) -> bool {
    match (a.kind, b.kind) {
        (EntityKind::Player(p), EntityKind::Laser(l)) => p.team != l.player_team && aabb_overlap(
            a,
            b,
        ),
        (EntityKind::Laser(l), EntityKind::Player(p)) => l.player_team != p.team && aabb_overlap(
            a,
            b,
        ),
        _ => false,
    }
}

/// Whether anything in the table destroys this entity.
pub open spec fn hit_in(s: Seq<SimEntity>, e: SimEntity) -> bool {
    exists|j: int| 0 <= j < s.len() && opposing_hit(e, #[trigger] s[j])
}

/// The first `n` entities with every member of an overlapping opposing pair
/// removed; both sides of every such pair are destroyed in the same frame.
pub open spec fn laser_hit_entities(s: Seq<SimEntity>, n: int) -> Seq<SimEntity>
    decreases n,
{
    if n <= 0 {
        Seq::empty()
    } else {
        let prev = laser_hit_entities(s, n - 1);
        if hit_in(s, s[n - 1]) {
            prev
        } else {
            prev.push(s[n - 1])
        }
    }
}

/// The whole state after the collision rule.
pub open spec fn laser_hit_model(m: StateModel) -> StateModel {
    StateModel {
        frame: m.frame,
        num_players: m.num_players,
        next_id: m.next_id,
        entities: laser_hit_entities(m.entities, m.entities.len() as int),
    }
}

/// The surviving table is well formed: a sorted subtable of its source.
proof fn lemma_laser_hit_entities_wf(
    s: Seq<SimEntity>,
    n: int,
    num_players: int,
    frame: int,
    id_bound: int,
)
    requires
        0 <= n <= s.len(),
        forall|j: int| 0 <= j < s.len() ==> entity_wf(#[trigger] s[j], num_players, frame),
        forall|i: int, j: int| 0 <= i < j < s.len() ==> #[trigger] s[i].id < #[trigger] s[j].id,
        forall|j: int| 0 <= j < s.len() ==> #[trigger] s[j].id < id_bound,
    ensures
        laser_hit_entities(s, n).len() <= n,
        forall|i: int| 0 <= i < laser_hit_entities(s, n).len() ==> entity_wf(
            #[trigger] laser_hit_entities(s, n)[i],
            num_players,
            frame,
        ),
        forall|i: int, j: int| 0 <= i < j < laser_hit_entities(s, n).len()
            ==> (#[trigger] laser_hit_entities(s, n)[i]).id < (#[trigger] laser_hit_entities(
            s,
            n,
        )[j]).id,
        forall|i: int| 0 <= i < laser_hit_entities(s, n).len()
            ==> (#[trigger] laser_hit_entities(s, n)[i]).id < id_bound,
        n > 0 ==> forall|i: int| 0 <= i < laser_hit_entities(s, n).len()
            ==> (#[trigger] laser_hit_entities(s, n)[i]).id <= s[n - 1].id,
        count_players(laser_hit_entities(s, n)) <= count_players(s.take(n)),
    decreases n,
{
    if n > 0 {
        lemma_laser_hit_entities_wf(s, n - 1, num_players, frame, id_bound);
        lemma_count_players_take_succ(s, n - 1);
        let prev = laser_hit_entities(s, n - 1);
        if !hit_in(s, s[n - 1]) {
            assert(prev.push(s[n - 1]).drop_last() =~= prev);
            lemma_count_players_nonneg(prev);
        }
    }
}

/// Whether two concrete entities form an overlapping opposing pair.
fn check_hit(a: &SimEntity, b: &SimEntity) -> (r: bool)
    requires
        -POS_LIMIT <= a.pos_x <= POS_LIMIT,
        -POS_LIMIT <= a.pos_y <= POS_LIMIT,
        -POS_LIMIT <= b.pos_x <= POS_LIMIT,
        -POS_LIMIT <= b.pos_y <= POS_LIMIT,
        0 <= extent_of(*a).x <= MAX_EXTENT,
        0 <= extent_of(*a).y <= MAX_EXTENT,
        0 <= extent_of(*b).x <= MAX_EXTENT,
        0 <= extent_of(*b).y <= MAX_EXTENT,
    ensures
        r == opposing_hit(*a, *b),
{
    let opposing = match (a.kind, b.kind) {
        (EntityKind::Player(p), EntityKind::Laser(l)) => p.team != l.player_team,
        (EntityKind::Laser(l), EntityKind::Player(p)) => l.player_team != p.team,
        _ => false,
    };
    if !opposing {
        return false;
    }
    let ea = match a.kind {
        EntityKind::Player(p) => p.size,
        EntityKind::Laser(l) => l.size,
    };
    let eb = match b.kind {
        EntityKind::Player(p) => p.size,
        EntityKind::Laser(l) => l.size,
    };
    let dx = abs_i64(a.pos_x - b.pos_x);
    let dy = abs_i64(a.pos_y - b.pos_y);
    dx * 2 < ea.x + eb.x && dy * 2 < ea.y + eb.y
}

/// Destroys both members of every overlapping opposing ship/laser pair,
/// walking pairs in ascending id order so that simultaneous multi-collision
/// resolution is reproducible.
pub fn laser_hit_system(state: &mut GameState)
    requires
        old(state).wf_core(),
    ensures
        final(state).model() == laser_hit_model(old(state).model()),
        final(state).wf_core(),
{
    let ghost orig = old(state).entities@;
    let n = state.entities.len();
    let mut out: Vec<SimEntity> = Vec::new();
    for i in 0..n
        invariant
            n == state.entities.len(),
            state.entities@ == orig,
            state.frame == old(state).frame,
            state.num_players == old(state).num_players,
            state.next_id == old(state).next_id,
            old(state).wf_core(),
            out@ == laser_hit_entities(orig, i as int),
    {
        let e = state.entities[i];
        assert(e == orig[i as int]);
        assert(entity_wf(e, old(state).num_players as int, old(state).frame.frame as int));
        let mut hit = false;
        for j in 0..n
            invariant
                n == state.entities.len(),
                state.entities@ == orig,
                orig.len() == n,
                old(state).wf_core(),
                i < n,
                e == orig[i as int],
                entity_wf(e, old(state).num_players as int, old(state).frame.frame as int),
                hit == exists|k: int| 0 <= k < j && opposing_hit(e, #[trigger] orig[k]),
        {
            let o = state.entities[j];
            assert(o == orig[j as int]);
            assert(entity_wf(o, old(state).num_players as int, old(state).frame.frame as int));
            if check_hit(&e, &o) {
                hit = true;
                assert(opposing_hit(e, orig[j as int]));
            }
        }
        if !hit {
            out.push(e);
        }
        proof {
            assert(hit == hit_in(orig, orig[i as int]));
            assert(out@ =~= laser_hit_entities(orig, i + 1));
        }
    }
    state.entities = out;
    proof {
        assert(final(state).model() =~= laser_hit_model(old(state).model()));
        let m0 = old(state).model();
        lemma_laser_hit_entities_wf(orig, n as int, m0.num_players, m0.frame, m0.next_id);
        lemma_count_players_take_le(orig, n as int);
        assert(orig.take(n as int) =~= orig);
        assert(final(state).wf_core());
    }
}

/// Advances the frame counter by one; the counter changes nowhere else.
pub fn increase_frame_count(frame_count: &mut FrameCount)
    requires
        old(frame_count).frame < u32::MAX,
    ensures
        final(frame_count).frame == old(frame_count).frame + 1,
{
    frame_count.frame = frame_count.frame + 1;
}

/// The state with its frame counter advanced by one.
pub open spec fn bump_frame_model(m: StateModel) -> StateModel {
    StateModel {
        frame: m.frame + 1,
        num_players: m.num_players,
        next_id: m.next_id,
        entities: m.entities,
    }
}

/// One whole simulation frame: inputs are applied, rising fire edges spawn
/// lasers, everything moves and wraps or despawns, opposing overlapping
/// pairs are destroyed, and the frame counter advances. A pure function of
/// the prior state and the per-player effective input bytes.
pub open spec fn step_model(m: StateModel, inputs: Seq<u8>) -> StateModel {
    bump_frame_model(
        laser_hit_model(movable_model(player_fire_model(apply_inputs_model(m, inputs), inputs))),
    )
}

/// Runs one deterministic simulation step and returns the next frame's
/// state; the given state is not modified.
pub fn step(state: &GameState, inputs: &Vec<(Input, InputStatus)>) -> (next: GameState)
    requires
        state.wf(),
        inputs@.len() == state.num_players,
        state.frame.frame < u32::MAX,
    ensures
        next.model() == step_model(state.model(), effective_inputs(inputs@)),
        next.wf(),
{
    let mut next = state.snapshot();
    proof {
        assert(next.wf_core());
        let m = state.model();
        assert((m.frame + 1) * m.num_players <= 0x1_0000_0000_0000i64 * 1000) by (nonlinear_arith)
            requires
                0 <= m.frame <= u32::MAX,
                0 < m.num_players <= 1000,
        ;
    }
    apply_inputs(&mut next, inputs);
    player_fire_system(&mut next, inputs);
    proof {
        // the position bound the movement rule asks for is looser than the
        // one the state keeps
        let mf = next.model();
        assert forall|i: int| 0 <= i < mf.entities.len() implies entity_wf_at(
            #[trigger] mf.entities[i],
            mf.num_players,
            mf.frame,
            POS_TRANSIENT_LIMIT as int,
        ) by {
            assert(entity_wf(mf.entities[i], mf.num_players, mf.frame));
        }
        assert(next.wf_pre_move());
    }
    movable_system(&mut next);
    laser_hit_system(&mut next);
    let ghost pre_bump = next.model();
    increase_frame_count(&mut next.frame);
    proof {
        let m0 = state.model();
        let eff = effective_inputs(inputs@);
        assert(next.model() =~= step_model(m0, eff));
        assert(next.model().next_id <= m0.next_id + m0.num_players);
        assert((m0.frame + 1) * m0.num_players + m0.num_players == (m0.frame + 2)
            * m0.num_players) by (nonlinear_arith);
        assert(next.model().next_id <= (next.model().frame + 1) * next.model().num_players);
        // bumping the frame turns the within-frame velocity slack into the
        // next boundary's tight bound
        let m1 = next.model();
        assert forall|i: int| 0 <= i < m1.entities.len() implies entity_wf(
            #[trigger] m1.entities[i],
            m1.num_players,
            m1.frame,
        ) && entity_vel_tight(m1.entities[i], m1.frame) by {
            assert(m1.entities[i] == pre_bump.entities[i]);
            assert(entity_wf(pre_bump.entities[i], pre_bump.num_players, pre_bump.frame));
        }
        assert(next.wf());
    }
    next
}

/// The state after simulating every listed frame in order from an initial
/// state; entry `i` of `inputs` holds the effective input bytes of frame `i`.
pub open spec fn simulate_model(init: StateModel, inputs: Seq<Seq<u8>>) -> StateModel
    decreases inputs.len(),
{
    if inputs.len() == 0 {
        init
    } else {
        step_model(simulate_model(init, inputs.drop_last()), inputs.last())
    }
}

/// A run keeps the player count and advances the frame counter once per
/// simulated frame.
pub proof fn lemma_simulate_frame_np(init: StateModel, inputs: Seq<Seq<u8>>)
    ensures
        simulate_model(init, inputs).num_players == init.num_players,
        simulate_model(init, inputs).frame == init.frame + inputs.len(),
    decreases inputs.len(),
{
    if inputs.len() > 0 {
        lemma_simulate_frame_np(init, inputs.drop_last());
    }
}

/// Determinism: a run is a function of the initial state and the per-frame
/// inputs alone, so two runs from equal states under equal input tables
/// agree on the state and the checksum at every frame.
pub proof fn lemma_determinism(
    state_a: StateModel,
    state_b: StateModel,
    inputs_a: Seq<Seq<u8>>,
    inputs_b: Seq<Seq<u8>>,
)
    requires
        state_a == state_b,
        inputs_a == inputs_b,
    ensures
        forall|n: int| 0 <= n <= inputs_a.len() ==> simulate_model(
            state_a,
            #[trigger] inputs_a.take(n),
        ) == simulate_model(state_b, inputs_b.take(n)),
        forall|n: int| 0 <= n <= inputs_a.len() ==> checksum_model(
            simulate_model(state_a, #[trigger] inputs_a.take(n)),
        ) == checksum_model(simulate_model(state_b, inputs_b.take(n))),
{
}

/// Simulating a concatenated input table equals simulating the first part
/// and carrying on from its result with the second.
pub proof fn lemma_simulate_append(init: StateModel, pre: Seq<Seq<u8>>, post: Seq<Seq<u8>>)
    ensures
        simulate_model(init, pre + post) == simulate_model(simulate_model(init, pre), post),
    decreases post.len(),
{
    if post.len() == 0 {
        assert(pre + post =~= pre);
    } else {
        assert((pre + post).drop_last() =~= pre + post.drop_last());
        assert((pre + post).last() == post.last());
        lemma_simulate_append(init, pre, post.drop_last());
    }
}

/// Resimulation equivalence: simulating frames `0..N` directly with the
/// corrected inputs gives the same state as simulating `0..K` with the
/// predicted inputs, restoring the snapshot taken at `K`, and resimulating
/// `K..N` with the corrected inputs — provided the predictions were right up
/// to `K`.
pub proof fn lemma_resimulation_equivalence(
    init: StateModel,
    predicted: Seq<Seq<u8>>,
    corrected: Seq<Seq<u8>>,
    k: int,
)
    requires
        0 <= k <= predicted.len(),
        k <= corrected.len(),
        predicted.take(k) == corrected.take(k),
    ensures
        simulate_model(simulate_model(init, predicted.take(k)), corrected.skip(k))
            == simulate_model(init, corrected),
{
    assert(corrected =~= corrected.take(k) + corrected.skip(k));
    lemma_simulate_append(init, corrected.take(k), corrected.skip(k));
}

/// A table of player ships only counts one player per entry.
proof fn lemma_count_players_all(s: Seq<SimEntity>)
    requires
        forall|i: int| 0 <= i < s.len() ==> is_player(#[trigger] s[i]),
    ensures
        count_players(s) == s.len(),
    decreases s.len(),
{
    if s.len() > 0 {
        lemma_count_players_all(s.drop_last());
    }
}

/// The facing step a spawning player starts with: players are spread evenly
/// around the circle in handle order.
pub open spec fn spawn_angle(k: int, num_players: int) -> int {
    ((k * (ANGLE_STEPS as int)) / num_players) % (ANGLE_STEPS as int)
}

/// The ship spawned for handle `k`: at rest on a circle of half the arena
/// radius, facing outward, allies before enemies in handle order.
pub open spec fn spawned_player(
    k: int,
    num_allies: int,
    num_players: int,
    local_handle: int,
) -> SimEntity {
    let team = k >= num_allies;
    let a = spawn_angle(k, num_players);
    SimEntity {
        id: k as u64,
        pos_x: (dir_x_model(a) * SPAWN_RADIUS_MILLI) as i64,
        pos_y: (dir_y_model(a) * SPAWN_RADIUS_MILLI) as i64,
        velocity: Velocity { x: 0, y: 0 },
        angle: a as u8,
        angular_velocity: AngularVelocity { angle: 0 },
        thrust_engine: ThrustEngine { on: false, force: THRUST_FORCE },
        movable: Movable { auto_despawn: false, steerable: true },
        kind: EntityKind::Player(
            PlayerEntity {
                ego: k == local_handle,
                handle: k as usize,
                team,
                size: if team {
                    Extent { x: ENEMY_SIZE_X, y: ENEMY_SIZE_Y }
                } else {
                    Extent { x: ALLY_SIZE_X, y: ALLY_SIZE_Y }
                },
                prev_fire: false,
            },
        ),
    }
}

/// The initial round state: one ship per handle, frame zero, ids `0..n`.
pub open spec fn spawn_players_model(
    num_allies: int,
    num_enemies: int,
    local_handle: int,
) -> StateModel {
    let np = num_allies + num_enemies;
    StateModel {
        frame: 0,
        num_players: np,
        next_id: np,
        entities: Seq::new(
            np as nat,
            |k: int| spawned_player(k, num_allies, np, local_handle),
        ),
    }
}

/// Spawns the round's ships: `num_allies` allied handles then `num_enemies`
/// enemy handles, at rest, spread deterministically around a circle.
pub fn spawn_players(num_allies: usize, num_enemies: usize, local_handle: usize) -> (s: GameState)
    requires
        0 < num_allies + num_enemies <= MAX_PLAYERS,
        local_handle < num_allies + num_enemies,
    ensures
        s.model() == spawn_players_model(
            num_allies as int,
            num_enemies as int,
            local_handle as int,
        ),
        s.wf(),
{
    let np = num_allies + num_enemies;
    let ghost target = spawn_players_model(
        num_allies as int,
        num_enemies as int,
        local_handle as int,
    );
    let mut entities: Vec<SimEntity> = Vec::new();
    for k in 0..np
        invariant
            np == num_allies + num_enemies,
            0 < np <= MAX_PLAYERS,
            entities@.len() == k,
            forall|j: int| 0 <= j < k ==> entities@[j] == spawned_player(
                j,
                num_allies as int,
                np as int,
                local_handle as int,
            ),
    {
        let team = k >= num_allies;
        let a_step = ((k * ANGLE_STEPS as usize) / np) % ANGLE_STEPS as usize;
        let a = a_step as u8;
        let dx = dir_x(a);
        let dy = dir_y(a);
        let e = SimEntity {
            id: k as u64,
            pos_x: dx * SPAWN_RADIUS_MILLI,
            pos_y: dy * SPAWN_RADIUS_MILLI,
            velocity: Velocity { x: 0, y: 0 },
            angle: a,
            angular_velocity: AngularVelocity { angle: 0 },
            thrust_engine: ThrustEngine { on: false, force: THRUST_FORCE },
            movable: Movable { auto_despawn: false, steerable: true },
            kind: EntityKind::Player(
                PlayerEntity {
                    ego: k == local_handle,
                    handle: k,
                    team,
                    size: if team {
                        Extent { x: ENEMY_SIZE_X, y: ENEMY_SIZE_Y }
                    } else {
                        Extent { x: ALLY_SIZE_X, y: ALLY_SIZE_Y }
                    },
                    prev_fire: false,
                },
            ),
        };
        assert(e == spawned_player(k as int, num_allies as int, np as int, local_handle as int));
        entities.push(e);
    }
    let s = GameState {
        frame: FrameCount { frame: 0 },
        num_players: np,
        next_id: np as u64,
        entities,
    };
    proof {
        assert(s.entities@ =~= target.entities);
        assert(s.model() =~= target);
        assert forall|i: int| 0 <= i < s.entities@.len() implies is_player(
            #[trigger] s.entities@[i],
        ) by {
            assert(s.entities@[i] == target.entities[i]);
        }
        lemma_count_players_all(s.entities@);
        assert forall|i: int| 0 <= i < s.entities@.len() implies entity_wf(
            #[trigger] s.entities@[i],
            np as int,
            0,
        ) && entity_vel_tight(s.entities@[i], 0) by {
            assert(s.entities@[i] == spawned_player(i, num_allies as int, np as int,
                local_handle as int));
        }
        assert(model_wf(s.model()));
    }
    s
}

} // verus!
