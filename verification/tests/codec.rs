use rollback_core::codec::{
    decode, encode, input, ProtocolError, INPUT_LEFT, INPUT_RIGHT, INPUT_SPACE, INPUT_UP,
};
use rollback_core::components::Input;

#[test]
fn round_trip_all_bitmask_values() {
    for x in 0..=255u8 {
        let token = Input { inp: x };
        let wire = encode(token);
        assert_eq!(wire.len(), 1);
        assert_eq!(decode(&wire), Ok(token));
    }
}

#[test]
fn decode_rejects_empty_token() {
    let wire: Vec<u8> = Vec::new();
    assert_eq!(decode(&wire), Err(ProtocolError::MalformedLength));
}

#[test]
fn decode_rejects_long_token() {
    let wire: Vec<u8> = vec![1, 2];
    assert_eq!(decode(&wire), Err(ProtocolError::MalformedLength));
}

#[test]
fn input_encodes_single_flags() {
    assert_eq!(input(false, false, false, false).inp, 0);
    assert_eq!(input(true, false, false, false).inp, INPUT_UP);
    assert_eq!(input(false, true, false, false).inp, INPUT_LEFT);
    assert_eq!(input(false, false, true, false).inp, INPUT_RIGHT);
    assert_eq!(input(false, false, false, true).inp, INPUT_SPACE);
}

#[test]
fn input_encodes_combined_flags() {
    assert_eq!(
        input(true, true, true, true).inp,
        INPUT_UP | INPUT_LEFT | INPUT_RIGHT | INPUT_SPACE
    );
    assert_eq!(input(true, false, false, true).inp, INPUT_UP | INPUT_SPACE);
    assert_eq!(input(false, true, true, false).inp, INPUT_LEFT | INPUT_RIGHT);
}

#[test]
fn input_is_a_pure_function_of_the_flags() {
    for mask in 0..16u8 {
        let up = mask & 1 != 0;
        let left = mask & 2 != 0;
        let right = mask & 4 != 0;
        let fire = mask & 8 != 0;
        assert_eq!(input(up, left, right, fire), input(up, left, right, fire));
    }
}
