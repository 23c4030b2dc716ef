//! Big integers as they arrive from outside: a big-endian byte string of any
//! length up to 32, turned into four 64-bit limbs.

use crate::error::EngineError;
use crate::field::{
    be_value, byte_weight, le_value, lemma_le_value_append, lemma_le_value_of_reverse,
    lemma_le_value_zero_bytes, lemma_limbs_value_of_four, limbs_value, zero_bytes,
};
use vstd::prelude::*;

verus! {

/// The greatest number of bytes that a big integer may have.
pub const BIG_INT_SIZE: usize = 32;

/// The limb that the eight bytes from `at` on spell, little-endian.
fn limb_at(bytes: &[u8; 32], at: usize) -> (limb: u64)
    requires
        at + 8 <= 32,
    ensures
        limb as nat == le_value(bytes@.subrange(at as int, at + 8)),
{
    let b0 = bytes[at] as u64;
    let b1 = bytes[at + 1] as u64;
    let b2 = bytes[at + 2] as u64;
    let b3 = bytes[at + 3] as u64;
    let b4 = bytes[at + 4] as u64;
    let b5 = bytes[at + 5] as u64;
    let b6 = bytes[at + 6] as u64;
    let b7 = bytes[at + 7] as u64;
    proof {
        let s0 = bytes@.subrange(at as int, at + 8);
        let s1 = s0.drop_first();
        let s2 = s1.drop_first();
        let s3 = s2.drop_first();
        let s4 = s3.drop_first();
        let s5 = s4.drop_first();
        let s6 = s5.drop_first();
        let s7 = s6.drop_first();
        assert(le_value(s7.drop_first()) == 0);
        assert(le_value(s7) == b7 + 256 * le_value(s7.drop_first()));
        assert(le_value(s6) == b6 + 256 * le_value(s7));
        assert(le_value(s5) == b5 + 256 * le_value(s6));
        assert(le_value(s4) == b4 + 256 * le_value(s5));
        assert(le_value(s3) == b3 + 256 * le_value(s4));
        assert(le_value(s2) == b2 + 256 * le_value(s3));
        assert(le_value(s1) == b1 + 256 * le_value(s2));
        assert(le_value(s0) == b0 + 256 * le_value(s1));
    }
    b0 + b1 * 0x100 + b2 * 0x1_0000 + b3 * 0x100_0000 + b4 * 0x1_0000_0000 + b5
        * 0x100_0000_0000 + b6 * 0x1_0000_0000_0000 + b7 * 0x100_0000_0000_0000
}

/// Thirty-two bytes spell, little-endian, what their four limbs spell.
proof fn lemma_le_value_as_limbs(bytes: Seq<u8>, limbs: Seq<u64>)
    requires
        bytes.len() == 32,
        limbs.len() == 4,
        forall|k: int| 0 <= k < 4 ==> limbs[k] as nat == le_value(#[trigger] bytes.subrange(8 * k, 8 * k + 8)),
    ensures
        le_value(bytes) == limbs_value(limbs),
{
    let s0 = bytes.subrange(8 * 0int, 8 * 0int + 8);
    let s1 = bytes.subrange(8 * 1int, 8 * 1int + 8);
    let s2 = bytes.subrange(8 * 2int, 8 * 2int + 8);
    let s3 = bytes.subrange(8 * 3int, 8 * 3int + 8);
    assert(bytes =~= s0 + (s1 + (s2 + s3)));
    lemma_le_value_append(s2, s3);
    lemma_le_value_append(s1, s2 + s3);
    lemma_le_value_append(s0, s1 + (s2 + s3));
    assert(byte_weight(8) == 0x1_0000_0000_0000_0000) by {
        reveal_with_fuel(byte_weight, 9);
    }
    lemma_limbs_value_of_four(limbs);
}

/// Converts bytes to a big integer of four 64-bit limbs, least significant
/// limb first. The bytes are big-endian and of any length up to 32; a longer
/// input is refused.
pub fn bytes_to_big_int(bytes: &[u8]) -> (r: Result<[u64; 4], EngineError>)
    ensures
        r is Err <==> bytes@.len() > BIG_INT_SIZE,
        r matches Err(e) ==> e == EngineError::InputTooLarge,
        r matches Ok(limbs) ==> limbs_value(limbs@) == be_value(bytes@),
{
    let n = bytes.len();
    if n > BIG_INT_SIZE {
        return Err(EngineError::InputTooLarge);
    }
    // little-endian, padded with zeros to the full width
    let mut padded: [u8; 32] = [0u8; 32];
    let mut i: usize = 0;
    while i < n
        invariant
            i <= n <= 32,
            n == bytes@.len(),
            forall|j: int| 0 <= j < i ==> padded@[j] == bytes@[n - 1 - j],
            forall|j: int| i <= j < 32 ==> padded@[j] == 0u8,
        decreases n - i,
    {
        padded[i] = bytes[n - 1 - i];
        i += 1;
    }
    proof {
        let zeros = zero_bytes((32 - n) as nat);
        assert(padded@ =~= bytes@.reverse() + zeros);
        lemma_le_value_append(bytes@.reverse(), zeros);
        lemma_le_value_zero_bytes((32 - n) as nat);
        lemma_le_value_of_reverse(bytes@);
        assert(byte_weight(n as nat) * 0 == 0) by (nonlinear_arith);
    }
    let limbs: [u64; 4] = [
        limb_at(&padded, 0),
        limb_at(&padded, 8),
        limb_at(&padded, 16),
        limb_at(&padded, 24),
    ];
    proof {
        lemma_le_value_as_limbs(padded@, limbs@);
    }
    Ok(limbs)
}

} // verus!
