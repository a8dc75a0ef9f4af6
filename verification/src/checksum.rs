use vstd::prelude::*;

use crate::components::{GameState, SimEntity, StateModel};

verus! {

/// A 16-bit state digest used only to detect divergence between peers,
/// never for gameplay decisions.
#[derive(Clone, Copy, Debug, PartialEq, Eq, Hash, Structural)]
pub struct Checksum {
    pub value: u16,
}

/// The little-endian bytes of a 64-bit value, least significant first.
pub open spec fn le_bytes_u64(v: u64) -> Seq<u8> {
    seq![
        (v >> 0u64) as u8,
        (v >> 8u64) as u8,
        (v >> 16u64) as u8,
        (v >> 24u64) as u8,
        (v >> 32u64) as u8,
        (v >> 40u64) as u8,
        (v >> 48u64) as u8,
        (v >> 56u64) as u8,
    ]
}

/// The canonical byte layout of a signed field: its two's-complement
/// little-endian bytes.
pub open spec fn le_bytes_i64(v: i64) -> Seq<u8> {
    le_bytes_u64(v as u64)
}

/// The canonical byte run of one entity: position then velocity, each axis
/// x before y, all little endian.
pub open spec fn entity_bytes(e: SimEntity) -> Seq<u8> {
    le_bytes_i64(e.pos_x) + le_bytes_i64(e.pos_y) + le_bytes_i64(e.velocity.x) + le_bytes_i64(
        e.velocity.y,
    )
}

/// The canonical byte run of an entity table: each entity's run in table
/// order, which the state invariant keeps at ascending id.
pub open spec fn state_bytes(entities: Seq<SimEntity>) -> Seq<u8>
    decreases entities.len(),
{
    if entities.len() == 0 {
        Seq::empty()
    } else {
        state_bytes(entities.drop_last()) + entity_bytes(entities.last())
    }
}

/// The running Fletcher sums over a byte sequence, each kept below 255.
pub open spec fn fletcher_sums(data: Seq<u8>) -> (int, int)
    decreases data.len(),
{
    if data.len() == 0 {
        (0int, 0int)
    } else {
        let prev = fletcher_sums(data.drop_last());
        let s1 = (prev.0 + data.last()) % 255;
        (s1, (prev.1 + s1) % 255)
    }
}

/// The Fletcher-16 digest: the two running sums packed as high and low byte.
pub open spec fn fletcher16_model(data: Seq<u8>) -> u16 {
    (fletcher_sums(data).1 * 256 + fletcher_sums(data).0) as u16
}

/// The checksum of a whole state: Fletcher-16 over the canonical byte run.
pub open spec fn checksum_model(m: StateModel) -> u16 {
    fletcher16_model(state_bytes(m.entities))
}

proof fn lemma_fletcher_sums_bounds(data: Seq<u8>)
    ensures
        0 <= fletcher_sums(data).0 < 255,
        0 <= fletcher_sums(data).1 < 255,
    decreases data.len(),
{
    if data.len() > 0 {
        lemma_fletcher_sums_bounds(data.drop_last());
    }
}

/// Appends the little-endian bytes of one signed field.
fn push_le_bytes(out: &mut Vec<u8>, v: i64)
    ensures
        final(out)@ == old(out)@ + le_bytes_i64(v),
{
    let u = v as u64;
    out.push((u >> 0u64) as u8);
    out.push((u >> 8u64) as u8);
    out.push((u >> 16u64) as u8);
    out.push((u >> 24u64) as u8);
    out.push((u >> 32u64) as u8);
    out.push((u >> 40u64) as u8);
    out.push((u >> 48u64) as u8);
    out.push((u >> 56u64) as u8);
    proof {
        assert(out@ =~= old(out)@ + le_bytes_i64(v));
    }
}

/// Computes the Fletcher-16 checksum of a byte run: two cumulative sums
/// modulo 255, packed as `sum2 << 8 | sum1`.
pub fn fletcher16(data: &Vec<u8>) -> (r: u16)
    ensures
        r == fletcher16_model(data@),
{
    let mut sum1: u16 = 0;
    let mut sum2: u16 = 0;
    let n = data.len();
    for i in 0..n
        invariant
            n == data.len(),
            sum1 as int == fletcher_sums(data@.take(i as int)).0,
            sum2 as int == fletcher_sums(data@.take(i as int)).1,
            sum1 < 255,
            sum2 < 255,
    {
        sum1 = (sum1 + data[i] as u16) % 255;
        sum2 = (sum2 + sum1) % 255;
        proof {
            assert(data@.take(i + 1).drop_last() =~= data@.take(i as int));
            assert(data@.take(i + 1).last() == data@[i as int]);
        }
    }
    proof {
        assert(data@.take(n as int) =~= data@);
    }
    let r = (sum2 << 8) | sum1;
    proof {
        assert(sum1 < 255 && sum2 < 255 ==> ((sum2 << 8) | sum1) == sum2 * 256 + sum1)
            by (bit_vector);
    }
    r
}

/// Computes the state checksum: canonical entity order, fixed field order,
/// fixed byte layout, reduced with Fletcher-16.
pub fn checksum(state: &GameState) -> (c: Checksum)
    ensures
        c.value == checksum_model(state.model()),
{
    let mut bytes: Vec<u8> = Vec::new();
    let n = state.entities.len();
    for i in 0..n
        invariant
            n == state.entities.len(),
            bytes@ == state_bytes(state.entities@.take(i as int)),
    {
        let e = state.entities[i];
        push_le_bytes(&mut bytes, e.pos_x);
        push_le_bytes(&mut bytes, e.pos_y);
        push_le_bytes(&mut bytes, e.velocity.x);
        push_le_bytes(&mut bytes, e.velocity.y);
        proof {
            let pre = state.entities@.take(i + 1);
            assert(pre.drop_last() =~= state.entities@.take(i as int));
            assert(pre.last() == state.entities@[i as int]);
            assert(bytes@ =~= state_bytes(state.entities@.take(i as int)) + entity_bytes(
                state.entities@[i as int],
            ));
        }
    }
    proof {
        assert(state.entities@.take(n as int) =~= state.entities@);
    }
    Checksum { value: fletcher16(&bytes) }
}

} // verus!
