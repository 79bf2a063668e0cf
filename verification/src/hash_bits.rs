//! How one 64-bit hash is read: its first `p` bits name a register, and the
//! position of the leftmost 1-bit among the other `64 - p` bits is its rank.
//!
//! Bits are numbered from the left, so bit 0 is the most significant one.

use vstd::prelude::*;

verus! {

use vstd::arithmetic::power2::pow2;

/// Whether bit `i` of `hash`, counted from the left, is 1.
pub open spec fn hash_bit(hash: u64, i: nat) -> bool {
    (hash as nat / pow2((63 - i) as nat)) % 2 == 1
}

/// The first position at or after `from` whose bit is 1, or 64 if there is none.
pub open spec fn first_one_from(hash: u64, from: nat) -> nat
    decreases 64 - from,
{
    if from >= 64 {
        64
    } else if hash_bit(hash, from) {
        from
    } else {
        first_one_from(hash, from + 1)
    }
}

/// The register that `hash` belongs to: its first `p` bits, read as a number.
pub open spec fn bucket(p: u8, hash: u64) -> nat
    recommends
        p <= 64,
{
    hash as nat / pow2((64 - p) as nat)
}

/// The rank of `hash`: the 1-based position of the leftmost 1-bit among the
/// `64 - p` bits that follow the first `p`, and `64 - p + 1` if all are 0.
pub open spec fn rank(p: u8, hash: u64) -> nat
    recommends
        p <= 64,
{
    (first_one_from(hash, p as nat) - p + 1) as nat
}

/// A bit seen through the shift that brings it to the lowest place.
proof fn lemma_hash_bit_is_shift(hash: u64, i: nat, k: u64)
    requires
        i < 64,
        k == 63 - i,
    ensures
        hash_bit(hash, i) == ((hash >> k) & 1 == 1),
{
    vstd::bits::lemma_u64_shr_is_div(hash, k);
    let shifted = hash >> k;
    assert(shifted & 1 == shifted % 2) by (bit_vector);
}

/// `first_one_from` is the one position with a 1-bit and only 0-bits before it.
pub proof fn lemma_first_one(hash: u64, from: nat, at: nat)
    requires
        from <= at <= 64,
        forall|i: nat| from <= i < at ==> !hash_bit(hash, i),
        at < 64 ==> hash_bit(hash, at),
    ensures
        first_one_from(hash, from) == at,
    decreases at - from,
{
    if from < at {
        lemma_first_one(hash, from + 1, at);
    }
}

/// What `first_one_from` finds is a 1-bit with only 0-bits before it.
pub proof fn lemma_first_one_found(hash: u64, from: nat)
    requires
        from <= 64,
    ensures
        from <= first_one_from(hash, from) <= 64,
        forall|i: nat| from <= i < first_one_from(hash, from) ==> !hash_bit(hash, i),
        first_one_from(hash, from) < 64 ==> hash_bit(hash, first_one_from(hash, from)),
    decreases 64 - from,
{
    if from < 64 && !hash_bit(hash, from) {
        lemma_first_one_found(hash, from + 1);
    }
}

/// Ranks lie between 1 and `64 - p + 1`.
pub proof fn lemma_rank_bounds(p: u8, hash: u64)
    requires
        p <= 64,
    ensures
        1 <= rank(p, hash) <= 65 - p,
{
    lemma_first_one_found(hash, p as nat);
}

/// The first `p` bits name one of `2^p` registers.
pub proof fn lemma_bucket_bound(p: u8, hash: u64)
    requires
        p <= 64,
    ensures
        bucket(p, hash) < pow2(p as nat),
{
    let w = (64 - p) as nat;
    vstd::arithmetic::power2::lemma2_to64_rest();
    vstd::arithmetic::power2::lemma_pow2_adds(p as nat, w);
    vstd::arithmetic::power2::lemma_pow2_pos(w);
    assert(hash as nat / pow2(w) < pow2(p as nat)) by (nonlinear_arith)
        requires
            hash as nat <= 0xffff_ffff_ffff_ffff,
            pow2(p as nat) * pow2(w) == 0x1_0000_0000_0000_0000,
            pow2(w) > 0,
    ;
}

/// A sketch of a supported precision has between 16 and 65536 registers.
pub proof fn lemma_register_count(p: u8)
    requires
        crate::MIN_PRECISION <= p <= crate::MAX_PRECISION,
    ensures
        16 <= pow2(p as nat) <= 65536,
{
    vstd::arithmetic::power2::lemma2_to64();
    if p > 4 {
        vstd::arithmetic::power2::lemma_pow2_strictly_increases(4, p as nat);
    }
    if p < 16 {
        vstd::arithmetic::power2::lemma_pow2_strictly_increases(p as nat, 16);
    }
}

/// Shifting `hash` left by `p` moves bit `i` to bit `i - p` and fills with 0.
proof fn lemma_remaining_bits(p: u8, hash: u64, remaining: u64)
    requires
        p < 64,
        remaining == hash << p,
    ensures
        forall|i: nat|
            p <= i < 64 ==> #[trigger] hash_bit(hash, i) == hash_bit(remaining, (i - p) as nat),
        forall|i: nat| 64 - p <= i < 64 ==> !#[trigger] hash_bit(remaining, i),
        remaining == 0 ==> forall|i: nat| p <= i < 64 ==> !#[trigger] hash_bit(hash, i),
{
    assert forall|i: nat| p <= i < 64 implies #[trigger] hash_bit(hash, i) == hash_bit(
        remaining,
        (i - p) as nat,
    ) by {
        let j = (63 - i) as u64;
        let k = (63 - i + p) as u64;
        let s = p as u64;
        lemma_hash_bit_is_shift(hash, i, j);
        lemma_hash_bit_is_shift(remaining, (i - p) as nat, k);
        assert(remaining == hash << s);
        assert((remaining >> k) & 1 == (hash >> j) & 1) by (bit_vector)
            requires
                k == j + s,
                k < 64,
                remaining == hash << s,
        ;
    }
    assert forall|i: nat| 64 - p <= i < 64 implies !#[trigger] hash_bit(remaining, i) by {
        let k = (63 - i) as u64;
        let s = p as u64;
        lemma_hash_bit_is_shift(remaining, i, k);
        assert(remaining == hash << s);
        assert((remaining >> k) & 1 == 0) by (bit_vector)
            requires
                k < s,
                s < 64,
                remaining == hash << s,
        ;
    }
    if remaining == 0 {
        assert forall|i: nat| p <= i < 64 implies !#[trigger] hash_bit(hash, i) by {
            let k = (63 - i + p) as u64;
            lemma_hash_bit_is_shift(remaining, (i - p) as nat, k);
            assert((0u64 >> k) & 1 == 0) by (bit_vector);
        }
    }
}

/// The leading zeros of the shifted hash are the 0-bits before its first 1-bit.
proof fn lemma_leading_one(p: u8, hash: u64, remaining: u64, zeros: u32)
    requires
        p < 64,
        remaining == hash << p,
        remaining != 0,
        zeros == vstd::std_specs::bits::u64_leading_zeros(remaining),
    ensures
        zeros < 64 - p,
        first_one_from(hash, p as nat) == p + zeros,
{
    lemma_remaining_bits(p, hash, remaining);
    let at = zeros as nat;
    let k = (63 - at) as u64;
    lemma_hash_bit_is_shift(remaining, at, k);
    let shifted = remaining >> k;
    assert(shifted & 1 != 0 ==> shifted & 1 == 1) by (bit_vector);
    assert(hash_bit(remaining, at));
    assert(hash_bit(hash, (p + at) as nat));
    assert forall|i: nat| p <= i < p + at implies !hash_bit(hash, i) by {
        let j = (63 - i + p) as u64;
        lemma_hash_bit_is_shift(remaining, (i - p) as nat, j);
        assert((remaining >> j) & 1 == 0);
    }
    lemma_first_one(hash, p as nat, (p + at) as nat);
}

/// Computes the register that `hash` belongs to.
pub(crate) fn bucket_of(p: u8, hash: u64) -> (index: usize)
    requires
        crate::MIN_PRECISION <= p <= crate::MAX_PRECISION,
    ensures
        index == bucket(p, hash),
        index < pow2(p as nat),
{
    let shift: u8 = 64 - p;
    let top: u64 = hash >> shift;
    proof {
        vstd::bits::lemma_u64_shr_is_div(hash, shift as u64);
        lemma_bucket_bound(p, hash);
        lemma_register_count(p);
    }
    top as usize
}

/// Computes the rank of `hash`.
pub(crate) fn rank_of(p: u8, hash: u64) -> (r: u8)
    requires
        crate::MIN_PRECISION <= p <= crate::MAX_PRECISION,
    ensures
        r == rank(p, hash),
        1 <= r <= 65 - p,
{
    // With the bucket bits shifted out, the bits that carry the rank lead.
    let remaining: u64 = hash << p;
    proof {
        lemma_remaining_bits(p, hash, remaining);
        lemma_rank_bounds(p, hash);
    }
    let bits_remaining: u8 = 64 - p;
    if remaining == 0 {
        proof {
            lemma_first_one(hash, p as nat, 64);
        }
        bits_remaining + 1
    } else {
        let zeros: u32 = remaining.leading_zeros();
        proof {
            lemma_leading_one(p, hash, remaining, zeros);
        }
        zeros as u8 + 1
    }
}

}
