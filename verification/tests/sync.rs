use rollback_core::components::{Input, InputStatus};
use rollback_core::sync::{DuplicateSubmission, InputSynchronizer, ReceiveOutcome};

fn inp(x: u8) -> Input {
    Input { inp: x }
}

#[test]
fn remote_input_is_confirmed_once_received() {
    let mut s = InputSynchronizer::new(2, 0);
    assert_eq!(s.receive_remote(1, 3, inp(7)), ReceiveOutcome::Stored);
    let t = s.inputs_for(3);
    assert_eq!(t.len(), 2);
    assert_eq!(t[1].0, inp(7));
    assert_eq!(t[1].1, InputStatus::Confirmed);
}

#[test]
fn prediction_repeats_the_last_confirmed_input() {
    let mut s = InputSynchronizer::new(2, 0);
    assert_eq!(s.receive_remote(1, 0, inp(5)), ReceiveOutcome::Stored);
    let t = s.inputs_for(4);
    assert_eq!(t[1].0, inp(5));
    assert_eq!(t[1].1, InputStatus::Predicted);
    // with no confirmation at all the prediction falls back to zero
    assert_eq!(t[0].0, inp(0));
    assert_eq!(t[0].1, InputStatus::Predicted);
}

#[test]
fn prediction_uses_the_most_recent_confirmed_frame() {
    let mut s = InputSynchronizer::new(2, 0);
    assert_eq!(s.receive_remote(1, 0, inp(1)), ReceiveOutcome::Stored);
    assert_eq!(s.receive_remote(1, 2, inp(9)), ReceiveOutcome::Stored);
    assert_eq!(s.inputs_for(5)[1].0, inp(9));
    assert_eq!(s.inputs_for(1)[1].0, inp(1));
}

#[test]
fn confirmed_input_never_changes_first_value_wins() {
    // once Confirmed is set for a (player, frame), later deliveries cannot
    // change the stored value
    let mut s = InputSynchronizer::new(2, 0);
    assert_eq!(s.receive_remote(1, 4, inp(7)), ReceiveOutcome::Stored);
    assert_eq!(
        s.receive_remote(1, 4, inp(9)),
        ReceiveOutcome::ConflictingInput
    );
    assert_eq!(s.confirmed_value(1, 4), Some(7));
    assert_eq!(
        s.receive_remote(1, 4, inp(7)),
        ReceiveOutcome::DuplicateDelivery
    );
    assert_eq!(s.confirmed_value(1, 4), Some(7));
    assert_eq!(s.inputs_for(4)[1].0, inp(7));
}

#[test]
fn disconnected_player_reads_zero_but_keeps_confirmed_frames() {
    let mut s = InputSynchronizer::new(2, 0);
    assert_eq!(s.receive_remote(1, 0, inp(5)), ReceiveOutcome::Stored);
    s.disconnect(1);
    // the confirmed frame is untouched
    assert_eq!(s.inputs_for(0)[1].0, inp(5));
    assert_eq!(s.inputs_for(0)[1].1, InputStatus::Confirmed);
    // unconfirmed frames read zero, permanently
    assert_eq!(s.inputs_for(1)[1].0, inp(0));
    assert_eq!(s.inputs_for(1)[1].1, InputStatus::Disconnected);
    // further input for the player is ignored
    assert_eq!(s.receive_remote(1, 2, inp(9)), ReceiveOutcome::Ignored);
    assert_eq!(s.inputs_for(2)[1].1, InputStatus::Disconnected);
}

#[test]
fn submit_local_rejects_a_duplicate_for_a_confirmed_frame() {
    let mut s = InputSynchronizer::new(2, 0);
    assert_eq!(s.submit_local(3, inp(2)), Ok(()));
    assert_eq!(s.submit_local(3, inp(2)), Err(DuplicateSubmission));
    assert_eq!(s.confirmed_value(0, 3), Some(2));
}

#[test]
fn frontier_counts_consecutive_fully_confirmed_frames() {
    let mut s = InputSynchronizer::new(2, 0);
    assert_eq!(s.advance_confirmed_frontier(10), 0);
    assert_eq!(s.submit_local(0, inp(0)), Ok(()));
    assert_eq!(s.submit_local(1, inp(0)), Ok(()));
    // only the local player is confirmed so far
    assert_eq!(s.advance_confirmed_frontier(10), 0);
    assert_eq!(s.receive_remote(1, 0, inp(0)), ReceiveOutcome::Stored);
    assert_eq!(s.advance_confirmed_frontier(10), 1);
    assert_eq!(s.receive_remote(1, 1, inp(0)), ReceiveOutcome::Stored);
    assert_eq!(s.advance_confirmed_frontier(10), 2);
    // a gap stops the frontier even if later frames are confirmed
    assert_eq!(s.receive_remote(1, 3, inp(0)), ReceiveOutcome::Stored);
    assert_eq!(s.submit_local(3, inp(0)), Ok(()));
    assert_eq!(s.advance_confirmed_frontier(10), 2);
}

#[test]
fn frontier_treats_disconnected_players_as_fixed() {
    let mut s = InputSynchronizer::new(2, 0);
    s.disconnect(1);
    assert_eq!(s.submit_local(0, inp(0)), Ok(()));
    assert_eq!(s.submit_local(1, inp(0)), Ok(()));
    assert_eq!(s.advance_confirmed_frontier(10), 2);
}

#[test]
fn frontier_is_capped_by_its_limit() {
    let mut s = InputSynchronizer::new(1, 0);
    for f in 0..8 {
        assert_eq!(s.submit_local(f, inp(0)), Ok(()));
    }
    assert_eq!(s.advance_confirmed_frontier(5), 5);
    assert_eq!(s.advance_confirmed_frontier(20), 8);
}
