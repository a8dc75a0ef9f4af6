use rollback_core::checksum::checksum;
use rollback_core::codec::{INPUT_LEFT, INPUT_RIGHT, INPUT_SPACE, INPUT_UP};
use rollback_core::components::{
    AngularVelocity, EntityKind, Extent, FrameCount, GameState, Input, InputStatus, Movable,
    PlayerEntity, SimEntity, ThrustEngine, Velocity,
};
use rollback_core::config::{
    ALLY_SIZE_X, ALLY_SIZE_Y, ARENA_SIZE, DECAY, HALF_ARENA, LASER_SIZE_X, LASER_SIZE_Y,
    POS_LIMIT, THRUST_FORCE, TURN_RATE,
};
use rollback_core::simulator::{
    apply_inputs, increase_frame_count, laser_hit_system, movable_system, player_fire_system,
    spawn_players, step,
};

fn ship(id: u64, handle: usize, team: bool, x: i64, y: i64) -> SimEntity {
    SimEntity {
        id,
        pos_x: x,
        pos_y: y,
        velocity: Velocity { x: 0, y: 0 },
        angle: 0,
        angular_velocity: AngularVelocity { angle: 0 },
        thrust_engine: ThrustEngine {
            on: false,
            force: THRUST_FORCE,
        },
        movable: Movable {
            auto_despawn: false,
            steerable: true,
        },
        kind: EntityKind::Player(PlayerEntity {
            ego: false,
            handle,
            team,
            size: Extent {
                x: ALLY_SIZE_X,
                y: ALLY_SIZE_Y,
            },
            prev_fire: false,
        }),
    }
}

fn laser(id: u64, handle: usize, team: bool, x: i64, y: i64) -> SimEntity {
    SimEntity {
        id,
        pos_x: x,
        pos_y: y,
        velocity: Velocity { x: 0, y: 0 },
        angle: 0,
        angular_velocity: AngularVelocity { angle: 0 },
        thrust_engine: ThrustEngine { on: false, force: 0 },
        movable: Movable {
            auto_despawn: true,
            steerable: false,
        },
        kind: EntityKind::Laser(rollback_core::components::Laser {
            player_handle: handle,
            player_team: team,
            size: Extent {
                x: LASER_SIZE_X,
                y: LASER_SIZE_Y,
            },
        }),
    }
}

fn state_of(num_players: usize, next_id: u64, entities: Vec<SimEntity>) -> GameState {
    GameState {
        frame: FrameCount { frame: 0 },
        num_players,
        next_id,
        entities,
    }
}

fn confirmed_table(bytes: &[u8]) -> Vec<(Input, InputStatus)> {
    bytes
        .iter()
        .map(|b| (Input { inp: *b }, InputStatus::Confirmed))
        .collect()
}

#[test]
fn wrapping_entity_crosses_to_the_opposite_edge() {
    // A non-despawning entity one unit past the right edge wraps to the left.
    let mut st = state_of(1, 1, vec![ship(0, 0, false, ARENA_SIZE / 2 + 1, 0)]);
    movable_system(&mut st);
    assert_eq!(st.entities.len(), 1);
    assert_eq!(st.entities[0].pos_x, -ARENA_SIZE / 2);
    assert_eq!(st.entities[0].pos_y, 0);
}

#[test]
fn wrapping_works_on_all_four_edges() {
    let mut st = state_of(
        4,
        4,
        vec![
            ship(0, 0, false, HALF_ARENA + 5, 0),
            ship(1, 1, false, -HALF_ARENA - 5, 0),
            ship(2, 2, false, 0, HALF_ARENA + 5),
            ship(3, 3, false, 0, -HALF_ARENA - 5),
        ],
    );
    movable_system(&mut st);
    assert_eq!(st.entities[0].pos_x, -HALF_ARENA);
    assert_eq!(st.entities[1].pos_x, HALF_ARENA);
    assert_eq!(st.entities[2].pos_y, -HALF_ARENA);
    assert_eq!(st.entities[3].pos_y, HALF_ARENA);
}

#[test]
fn despawning_entity_is_removed_at_the_edge() {
    // An auto-despawning entity at the same position is removed instead.
    let mut st = state_of(1, 2, vec![laser(1, 0, true, ARENA_SIZE / 2 + 1, 0)]);
    movable_system(&mut st);
    assert_eq!(st.entities.len(), 0);
}

#[test]
fn despawning_entity_inside_the_arena_survives() {
    let mut st = state_of(1, 2, vec![laser(1, 0, true, POS_LIMIT - 10, 0)]);
    movable_system(&mut st);
    assert_eq!(st.entities.len(), 1);
}

#[test]
fn thrust_accelerates_along_facing() {
    let mut st = state_of(1, 1, vec![ship(0, 0, false, 0, 0)]);
    apply_inputs(&mut st, &confirmed_table(&[INPUT_UP]));
    assert_eq!(st.entities[0].velocity.x, 1000 * THRUST_FORCE);
    assert_eq!(st.entities[0].velocity.y, 0);
    // the rule writes velocity and angular rate only
    assert_eq!(
        st.entities[0].thrust_engine,
        ThrustEngine {
            on: false,
            force: THRUST_FORCE
        }
    );
}

#[test]
fn thrust_is_uncapped_and_accumulates() {
    let mut st = state_of(1, 1, vec![ship(0, 0, false, 0, 0)]);
    for k in 1i64..=100 {
        apply_inputs(&mut st, &confirmed_table(&[INPUT_UP]));
        assert_eq!(st.entities[0].velocity.x, k * 1000 * THRUST_FORCE);
    }
}

#[test]
fn no_thrust_decays_the_faster_axis_first() {
    let mut st = state_of(1, 1, vec![ship(0, 0, false, 0, 0)]);
    st.entities[0].velocity = Velocity {
        x: 3 * DECAY,
        y: DECAY,
    };
    apply_inputs(&mut st, &confirmed_table(&[0]));
    assert_eq!(st.entities[0].velocity.x, 2 * DECAY);
    assert_eq!(st.entities[0].velocity.y, DECAY);
}

#[test]
fn decay_never_overshoots_zero() {
    let mut st = state_of(1, 1, vec![ship(0, 0, false, 0, 0)]);
    st.entities[0].velocity = Velocity { x: DECAY / 2, y: 0 };
    apply_inputs(&mut st, &confirmed_table(&[0]));
    assert_eq!(st.entities[0].velocity.x, 0);
}

#[test]
fn decay_ties_take_the_x_axis() {
    let mut st = state_of(1, 1, vec![ship(0, 0, false, 0, 0)]);
    st.entities[0].velocity = Velocity {
        x: 3 * DECAY,
        y: 3 * DECAY,
    };
    apply_inputs(&mut st, &confirmed_table(&[0]));
    assert_eq!(st.entities[0].velocity.x, 2 * DECAY);
    assert_eq!(st.entities[0].velocity.y, 3 * DECAY);
}

#[test]
fn turn_left_takes_precedence_over_turn_right() {
    let mut st = state_of(1, 1, vec![ship(0, 0, false, 0, 0)]);
    apply_inputs(&mut st, &confirmed_table(&[INPUT_LEFT | INPUT_RIGHT]));
    assert_eq!(st.entities[0].angular_velocity.angle, TURN_RATE);
    apply_inputs(&mut st, &confirmed_table(&[INPUT_RIGHT]));
    assert_eq!(st.entities[0].angular_velocity.angle, -TURN_RATE);
    apply_inputs(&mut st, &confirmed_table(&[0]));
    assert_eq!(st.entities[0].angular_velocity.angle, 0);
}

#[test]
fn disconnected_player_reads_zero_input() {
    let mut st = state_of(1, 1, vec![ship(0, 0, false, 0, 0)]);
    let inputs = vec![(Input { inp: INPUT_UP }, InputStatus::Disconnected)];
    apply_inputs(&mut st, &inputs);
    assert_eq!(st.entities[0].velocity.x, 0);
    assert_eq!(st.entities[0].velocity.y, 0);
}

#[test]
fn fire_spawns_one_laser_on_the_rising_edge() {
    let mut st = state_of(1, 1, vec![ship(0, 0, false, 7, 9)]);
    player_fire_system(&mut st, &confirmed_table(&[INPUT_SPACE]));
    assert_eq!(st.entities.len(), 2);
    assert_eq!(st.next_id, 2);
    let l = &st.entities[1];
    assert_eq!(l.id, 1);
    assert_eq!(l.pos_x, 7);
    assert_eq!(l.pos_y, 9);
    // muzzle speed: one world unit per frame along facing step 0
    assert_eq!(l.velocity.x, 1_000_000);
    assert_eq!(l.velocity.y, 0);
    assert!(l.movable.auto_despawn);
    match &st.entities[0].kind {
        EntityKind::Player(p) => assert!(p.prev_fire),
        EntityKind::Laser(_) => panic!("expected the ship first"),
    }
}

#[test]
fn holding_fire_does_not_spawn_again() {
    let mut st = state_of(1, 1, vec![ship(0, 0, false, 0, 0)]);
    player_fire_system(&mut st, &confirmed_table(&[INPUT_SPACE]));
    assert_eq!(st.entities.len(), 2);
    player_fire_system(&mut st, &confirmed_table(&[INPUT_SPACE]));
    assert_eq!(st.entities.len(), 2, "held fire is not a rising edge");
    player_fire_system(&mut st, &confirmed_table(&[0]));
    player_fire_system(&mut st, &confirmed_table(&[INPUT_SPACE]));
    assert_eq!(st.entities.len(), 3, "releasing re-arms the trigger");
}

#[test]
fn simultaneous_fire_allocates_ids_in_table_order() {
    let mut st = state_of(
        2,
        2,
        vec![ship(0, 0, false, 0, 0), ship(1, 1, true, 100, 100)],
    );
    player_fire_system(&mut st, &confirmed_table(&[INPUT_SPACE, INPUT_SPACE]));
    assert_eq!(st.entities.len(), 4);
    assert_eq!(st.entities[2].id, 2);
    assert_eq!(st.entities[3].id, 3);
    assert_eq!(st.next_id, 4);
}

#[test]
fn opposing_laser_destroys_both() {
    let mut st = state_of(
        2,
        3,
        vec![ship(0, 0, false, 0, 0), laser(2, 1, true, 0, 0)],
    );
    laser_hit_system(&mut st);
    assert_eq!(st.entities.len(), 0);
}

#[test]
fn friendly_laser_passes_through() {
    let mut st = state_of(
        2,
        3,
        vec![ship(0, 0, false, 0, 0), laser(2, 0, false, 0, 0)],
    );
    laser_hit_system(&mut st);
    assert_eq!(st.entities.len(), 2);
}

#[test]
fn distant_laser_hits_nothing() {
    let mut st = state_of(
        2,
        3,
        vec![ship(0, 0, false, 0, 0), laser(2, 1, true, HALF_ARENA / 2, 0)],
    );
    laser_hit_system(&mut st);
    assert_eq!(st.entities.len(), 2);
}

#[test]
fn frame_counter_advances_once_per_step() {
    let st = spawn_players(1, 1, 0);
    let inputs = confirmed_table(&[0, 0]);
    let next = step(&st, &inputs);
    assert_eq!(next.frame.frame, 1);
    let after = step(&next, &inputs);
    assert_eq!(after.frame.frame, 2);
}

#[test]
fn increase_frame_count_adds_one() {
    let mut fc = FrameCount { frame: 41 };
    increase_frame_count(&mut fc);
    assert_eq!(fc.frame, 42);
}

#[test]
fn two_runs_with_equal_inputs_agree_on_every_frame() {
    // Determinism: bit-identical states and checksums at every frame.
    let script: Vec<Vec<u8>> = vec![
        vec![INPUT_UP, 0],
        vec![INPUT_UP | INPUT_LEFT, INPUT_SPACE],
        vec![INPUT_SPACE, INPUT_SPACE],
        vec![0, INPUT_RIGHT],
        vec![INPUT_UP | INPUT_SPACE, INPUT_UP],
    ];
    let mut a = spawn_players(1, 1, 0);
    let mut b = spawn_players(1, 1, 0);
    for frame in &script {
        a = step(&a, &confirmed_table(frame));
        b = step(&b, &confirmed_table(frame));
        assert!(a.state_eq(&b));
        assert_eq!(checksum(&a).value, checksum(&b).value);
    }
}

#[test]
fn spawn_players_is_deterministic_and_exact() {
    let st = spawn_players(1, 2, 0);
    assert_eq!(st.num_players, 3);
    assert_eq!(st.next_id, 3);
    assert_eq!(st.frame.frame, 0);
    assert_eq!(st.entities.len(), 3);
    // handle 0: facing step 0, on the spawn circle to the east
    assert_eq!(st.entities[0].id, 0);
    assert_eq!(st.entities[0].angle, 0);
    assert_eq!(st.entities[0].pos_x, 500_000_000);
    assert_eq!(st.entities[0].pos_y, 0);
    // handle 1: facing step (1 * 16 / 3) % 16 == 5
    assert_eq!(st.entities[1].angle, 5);
    assert_eq!(st.entities[1].pos_x, -191_500_000);
    assert_eq!(st.entities[1].pos_y, 462_000_000);
    // handle 2: facing step (2 * 16 / 3) % 16 == 10
    assert_eq!(st.entities[2].angle, 10);
    assert_eq!(st.entities[2].pos_x, -353_500_000);
    assert_eq!(st.entities[2].pos_y, -353_500_000);
    for (k, e) in st.entities.iter().enumerate() {
        match &e.kind {
            EntityKind::Player(p) => {
                assert_eq!(p.handle, k);
                assert_eq!(p.team, k >= 1);
                assert_eq!(p.ego, k == 0);
                assert!(!p.prev_fire);
            }
            EntityKind::Laser(_) => panic!("spawn creates ships only"),
        }
        assert_eq!(e.velocity, Velocity { x: 0, y: 0 });
    }
}
