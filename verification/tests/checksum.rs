use rollback_core::checksum::{checksum, fletcher16};
use rollback_core::simulator::spawn_players;

#[test]
fn fletcher16_known_vectors() {
    let abcde: Vec<u8> = vec![b'a', b'b', b'c', b'd', b'e'];
    assert_eq!(fletcher16(&abcde), 0xC8F0);
    let abcdef: Vec<u8> = vec![b'a', b'b', b'c', b'd', b'e', b'f'];
    assert_eq!(fletcher16(&abcdef), 0x2057);
    let abcdefgh: Vec<u8> = vec![b'a', b'b', b'c', b'd', b'e', b'f', b'g', b'h'];
    assert_eq!(fletcher16(&abcdefgh), 0x0627);
}

#[test]
fn fletcher16_of_empty_input_is_zero() {
    let empty: Vec<u8> = Vec::new();
    assert_eq!(fletcher16(&empty), 0);
}

#[test]
fn checksum_of_frame_zero_state_is_reproducible() {
    // An all-zero-input two-player frame-0 state, hashed twice independently.
    let a = spawn_players(1, 1, 0);
    let b = spawn_players(1, 1, 0);
    assert_eq!(checksum(&a).value, checksum(&b).value);
}

#[test]
fn checksum_sees_a_one_unit_velocity_change() {
    let a = spawn_players(1, 1, 0);
    let mut b = spawn_players(1, 1, 0);
    b.entities[0].velocity.x += 1;
    assert_ne!(checksum(&a).value, checksum(&b).value);
}

#[test]
fn checksum_sees_a_one_unit_position_change() {
    let a = spawn_players(1, 1, 0);
    let mut b = spawn_players(1, 1, 0);
    b.entities[1].pos_y += 1;
    assert_ne!(checksum(&a).value, checksum(&b).value);
}
