use vstd::prelude::*;

use crate::components::Input;

verus! {

/// Thrust flag.
pub const INPUT_UP: u8 = 0b0001;

/// Fire flag.
pub const INPUT_SPACE: u8 = 0b0010;

/// Turn-left flag.
pub const INPUT_LEFT: u8 = 0b0100;

/// Turn-right flag.
pub const INPUT_RIGHT: u8 = 0b1000;

/// Wire decoding failure: the only way the codec can fail.
#[derive(Clone, Copy, Debug, PartialEq, Eq, Structural)]
pub enum ProtocolError {
    /// The transport delivered a token of the wrong length.
    MalformedLength,
}

/// The bitmask built from the four action flags.
pub open spec fn input_bits(up: bool, left: bool, right: bool, fire: bool) -> u8 {
    (if up { INPUT_UP } else { 0u8 })
    | (if fire { INPUT_SPACE } else { 0u8 })
    | (if left { INPUT_LEFT } else { 0u8 })
    | (if right { INPUT_RIGHT } else { 0u8 })
}

/// Encodes the current input-device state as a one-byte bitmask.
/// A pure function of the four flags: no history, no randomness.
pub fn input(up: bool, left: bool, right: bool, fire: bool) -> (r: Input)
    ensures
        r.inp == input_bits(up, left, right, fire),
{
    let inp: u8 = (if up { INPUT_UP } else { 0u8 })
        | (if fire { INPUT_SPACE } else { 0u8 })
        | (if left { INPUT_LEFT } else { 0u8 })
        | (if right { INPUT_RIGHT } else { 0u8 });
    Input { inp }
}

/// Each flag of the built bitmask reads back as the flag that produced it.
pub proof fn lemma_input_bits_flags(up: bool, left: bool, right: bool, fire: bool)
    ensures
        (input_bits(up, left, right, fire) & INPUT_UP != 0) == up,
        (input_bits(up, left, right, fire) & INPUT_SPACE != 0) == fire,
        (input_bits(up, left, right, fire) & INPUT_LEFT != 0) == left,
        (input_bits(up, left, right, fire) & INPUT_RIGHT != 0) == right,
{
    let a: u8 = if up { INPUT_UP } else { 0u8 };
    let b: u8 = if fire { INPUT_SPACE } else { 0u8 };
    let c: u8 = if left { INPUT_LEFT } else { 0u8 };
    let d: u8 = if right { INPUT_RIGHT } else { 0u8 };
    assert forall|a: u8, b: u8, c: u8, d: u8|
        (a == 0 || a == 1) && (b == 0 || b == 2) && (c == 0 || c == 4) && (d == 0 || d == 8)
        implies {
            &&& (((a | b | c | d) & 1u8 != 0) == (a == 1))
            &&& (((a | b | c | d) & 2u8 != 0) == (b == 2))
            &&& (((a | b | c | d) & 4u8 != 0) == (c == 4))
            &&& (((a | b | c | d) & 8u8 != 0) == (d == 8))
        } by {
        assert((a == 0 || a == 1) && (b == 0 || b == 2) && (c == 0 || c == 4) && (d == 0 || d == 8)
            ==> {
                &&& (((a | b | c | d) & 1u8 != 0) == (a == 1))
                &&& (((a | b | c | d) & 2u8 != 0) == (b == 2))
                &&& (((a | b | c | d) & 4u8 != 0) == (c == 4))
                &&& (((a | b | c | d) & 8u8 != 0) == (d == 8))
            }) by (bit_vector);
    }
    assert(input_bits(up, left, right, fire) == (a | b | c | d));
}

/// The wire form of an input token: exactly one byte, the bitmask itself.
pub open spec fn encode_model(i: Input) -> Seq<u8> {
    seq![i.inp]
}

/// The decode of a wire token: any length other than one is malformed.
pub open spec fn decode_model(bytes: Seq<u8>) -> Result<Input, ProtocolError> {
    if bytes.len() == 1 {
        Ok(Input { inp: bytes[0] })
    } else {
        Err(ProtocolError::MalformedLength)
    }
}

/// Serializes an input token for the transport.
pub fn encode(i: Input) -> (r: Vec<u8>)
    ensures
        r@ == encode_model(i),
{
    let mut v: Vec<u8> = Vec::new();
    v.push(i.inp);
    proof {
        assert(v@ =~= encode_model(i));
    }
    v
}

/// Deserializes a wire token; rejects any length but one.
pub fn decode(bytes: &Vec<u8>) -> (r: Result<Input, ProtocolError>)
    ensures
        r == decode_model(bytes@),
{
    if bytes.len() == 1 {
        Ok(Input { inp: bytes[0] })
    } else {
        Err(ProtocolError::MalformedLength)
    }
}

/// Round trip: decoding an encoded token yields the token back, for every
/// bitmask value an input byte can take.
pub proof fn lemma_round_trip(i: Input)
    ensures
        decode_model(encode_model(i)) == Ok::<Input, ProtocolError>(i),
{
    assert(encode_model(i).len() == 1);
    assert(encode_model(i)[0] == i.inp);
}

} // verus!
