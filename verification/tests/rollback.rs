use rollback_core::checksum::checksum;
use rollback_core::codec::{INPUT_SPACE, INPUT_UP};
use rollback_core::components::{EntityKind, GameState, Input, InputStatus};
use rollback_core::rollback::{RollbackController, TickStatus};
use rollback_core::simulator::{spawn_players, step};
use rollback_core::sync::ReceiveOutcome;

fn inp(x: u8) -> Input {
    Input { inp: x }
}

fn confirmed_table(bytes: &[u8]) -> Vec<(Input, InputStatus)> {
    bytes
        .iter()
        .map(|b| (Input { inp: *b }, InputStatus::Confirmed))
        .collect()
}

fn lasers_in(state: &GameState) -> usize {
    state
        .entities
        .iter()
        .filter(|e| matches!(e.kind, EntityKind::Laser(_)))
        .count()
}

#[test]
fn simulation_stalls_at_the_prediction_window() {
    // the simulation never advances more than the window past the frontier
    let st = spawn_players(1, 1, 0);
    let mut c = RollbackController::new(st, 0, 12);
    for _ in 0..12 {
        assert_eq!(c.tick(), TickStatus::Advanced);
    }
    assert_eq!(c.current_frame, 12);
    assert_eq!(c.tick(), TickStatus::Stalled);
    assert_eq!(c.current_frame, 12, "a stall changes nothing");
    // confirming frame 0 for everyone lifts the stall
    assert_eq!(c.submit_local(0, inp(0)), Ok(()));
    assert_eq!(c.handle_remote_input(1, 0, inp(0)), ReceiveOutcome::Stored);
    assert_eq!(c.tick(), TickStatus::Advanced);
    assert_eq!(c.current_frame, 13);
    assert_eq!(c.tick(), TickStatus::Stalled);
}

#[test]
fn late_fire_confirmation_rolls_back_and_spawns_the_projectile() {
    // 2 players, max prediction window 12; the local ship authors its input
    // two frames ahead of the simulation (input delay 2) and never fires
    let st = spawn_players(1, 1, 0);
    let mut c = RollbackController::new(st, 0, 12);
    for f in 0..15 {
        assert_eq!(c.submit_local(f, inp(0)), Ok(()));
    }
    // the remote ship's inputs are confirmed only through frame 9
    for f in 0..10 {
        assert_eq!(c.handle_remote_input(1, f, inp(0)), ReceiveOutcome::Stored);
    }
    for _ in 0..15 {
        assert_eq!(c.tick(), TickStatus::Advanced);
    }
    assert_eq!(c.current_frame, 15);
    // frames 10.. were simulated under a predicted no-fire: no projectile
    for f in 0..=15 {
        assert_eq!(lasers_in(&c.snapshot_at(f)), 0);
    }
    // the remote fire for frame 10 arrives late and contradicts the
    // prediction: misprediction, rollback, resimulation
    assert_eq!(
        c.handle_remote_input(1, 10, inp(INPUT_SPACE)),
        ReceiveOutcome::Stored
    );
    // the fire flag is released again from frame 11 on
    for f in 11..15 {
        assert_eq!(c.handle_remote_input(1, f, inp(0)), ReceiveOutcome::Stored);
    }
    assert_eq!(c.current_frame, 15, "rollback re-derives, it never rewinds");
    // the projectile exists in every snapshot derived after frame 10 was
    // simulated, and in none before
    for f in 0..=10 {
        assert_eq!(lasers_in(&c.snapshot_at(f)), 0);
    }
    for f in 11..=15 {
        assert_eq!(lasers_in(&c.snapshot_at(f)), 1);
    }
    // resimulation equivalence: a direct run under the final inputs lands on
    // the same state and checksum
    let mut direct = spawn_players(1, 1, 0);
    for f in 0..15 {
        let b = if f == 10 { INPUT_SPACE } else { 0 };
        direct = step(&direct, &confirmed_table(&[0, b]));
    }
    assert!(direct.state_eq(&c.snapshot_at(15)));
    assert_eq!(checksum(&direct).value, c.checksum_at(15).value);
}

#[test]
fn matching_confirmation_does_not_disturb_the_run() {
    let st = spawn_players(1, 1, 0);
    let mut c = RollbackController::new(st, 0, 12);
    for _ in 0..5 {
        assert_eq!(c.tick(), TickStatus::Advanced);
    }
    let before = c.snapshot_at(5);
    // the predictions said zero; confirming zero proves them right
    assert_eq!(c.handle_remote_input(1, 2, inp(0)), ReceiveOutcome::Stored);
    assert_eq!(c.submit_local(2, inp(0)), Ok(()));
    assert!(before.state_eq(&c.snapshot_at(5)));
}

#[test]
fn disconnect_rolls_back_mispredicted_frames() {
    let st = spawn_players(1, 1, 0);
    let mut c = RollbackController::new(st, 0, 12);
    for f in 0..6 {
        assert_eq!(c.submit_local(f, inp(0)), Ok(()));
    }
    // the remote ship thrusts at frame 0, and the prediction repeats that
    assert_eq!(
        c.handle_remote_input(1, 0, inp(INPUT_UP)),
        ReceiveOutcome::Stored
    );
    for _ in 0..6 {
        assert_eq!(c.tick(), TickStatus::Advanced);
    }
    c.disconnect_player(1);
    // frames 1..6 are re-derived with zero input for the disconnected ship
    let mut direct = spawn_players(1, 1, 0);
    for f in 0..6 {
        let b = if f == 0 { INPUT_UP } else { 0 };
        direct = step(&direct, &confirmed_table(&[0, b]));
    }
    assert!(direct.state_eq(&c.snapshot_at(6)));
    // and further input from the disconnected player is ignored
    assert_eq!(
        c.handle_remote_input(1, 3, inp(INPUT_UP)),
        ReceiveOutcome::Ignored
    );
}

#[test]
fn eviction_drops_only_confirmed_frames_and_rollback_still_works() {
    let st = spawn_players(1, 1, 0);
    let mut c = RollbackController::new(st, 0, 12);
    for f in 0..5 {
        assert_eq!(c.submit_local(f, inp(0)), Ok(()));
        assert_eq!(c.handle_remote_input(1, f, inp(0)), ReceiveOutcome::Stored);
    }
    for _ in 0..8 {
        assert_eq!(c.tick(), TickStatus::Advanced);
    }
    c.evict_confirmed();
    assert_eq!(c.base_frame, 5);
    assert_eq!(c.current_frame, 8);
    assert_eq!(c.snapshot_at(8).frame.frame, 8);
    // a misprediction at a frame above the evicted range still rolls back
    assert_eq!(
        c.handle_remote_input(1, 6, inp(INPUT_UP)),
        ReceiveOutcome::Stored
    );
    let mut direct = spawn_players(1, 1, 0);
    for f in 0..8 {
        let b = if f >= 6 { INPUT_UP } else { 0 };
        direct = step(&direct, &confirmed_table(&[0, b]));
    }
    assert!(direct.state_eq(&c.snapshot_at(8)));
}

#[test]
fn peers_with_identical_confirmed_histories_agree() {
    // two peers, each local on a different handle, fed the same inputs;
    // both spawn the same round state (the ego marker is view-side, so the
    // peers must agree on it for their snapshots to be bit-identical)
    let mut a = RollbackController::new(spawn_players(1, 1, 0), 0, 12);
    let mut b = RollbackController::new(spawn_players(1, 1, 0), 1, 12);
    let script: [(u8, u8); 6] = [
        (INPUT_UP, 0),
        (INPUT_UP | INPUT_SPACE, INPUT_SPACE),
        (0, INPUT_SPACE),
        (INPUT_SPACE, INPUT_UP),
        (0, 0),
        (INPUT_UP, INPUT_SPACE),
    ];
    for (f, (xa, xb)) in script.iter().enumerate() {
        let f = f as u32;
        assert_eq!(a.submit_local(f, inp(*xa)), Ok(()));
        assert_eq!(a.handle_remote_input(1, f, inp(*xb)), ReceiveOutcome::Stored);
        assert_eq!(b.submit_local(f, inp(*xb)), Ok(()));
        assert_eq!(b.handle_remote_input(0, f, inp(*xa)), ReceiveOutcome::Stored);
    }
    for _ in 0..6 {
        assert_eq!(a.tick(), TickStatus::Advanced);
        assert_eq!(b.tick(), TickStatus::Advanced);
    }
    for f in 0..=6 {
        assert_eq!(a.checksum_at(f).value, b.checksum_at(f).value);
        assert!(a.snapshot_at(f).state_eq(&b.snapshot_at(f)));
    }
}

#[test]
fn snapshots_restore_bit_identical_state() {
    let st = spawn_players(1, 2, 0);
    let copy = st.snapshot();
    assert!(st.state_eq(&copy));
    assert_eq!(checksum(&st).value, checksum(&copy).value);
}
