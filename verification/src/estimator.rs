//! The estimator itself.

use std::hash::Hash;

use vstd::prelude::*;

use crate::error::HyperLogLogError;
use crate::hash_bits::{bucket_of, rank_of};
use crate::item::hash_of;
use crate::sketch::Sketch;
use crate::{MAX_PRECISION, MIN_PRECISION};

verus! {

use crate::hash_bits::{bucket, lemma_register_count, rank};
use crate::meaning::zero_count_counts_places;
use vstd::arithmetic::power2::pow2;
use vstd::math::max;

/// A HyperLogLog cardinality estimator.
///
/// Construct one with [`HyperLogLog::new`] and feed it items with
/// [`HyperLogLog::insert`]; its registers then hold what is needed to estimate
/// the number of distinct items inserted so far.
#[derive(Debug)]
pub struct HyperLogLog {
    /// Number of bits used to select a register (`m = 2^p`).
    p: u8,
    /// Number of registers, `m = 2^p`.
    m: usize,
    /// `registers[i]` holds the maximum rank (leftmost-1-bit position) seen
    /// among all hashed items that mapped to bucket `i`.
    registers: Vec<u8>,
}

impl View for HyperLogLog {
    type V = Sketch;

    closed spec fn view(&self) -> Sketch {
        Sketch { precision: self.p, registers: self.registers@ }
    }
}

/// Writes one register.
fn write_register(registers: &mut Vec<u8>, i: usize, value: u8)
    requires
        i < old(registers)@.len(),
    ensures
        final(registers)@ == old(registers)@.update(i as int, value),
    no_unwind
{
    registers[i] = value;
}

/// Sets every register to 0, in place.
fn reset_registers(registers: &mut Vec<u8>)
    ensures
        final(registers)@ == Seq::new(old(registers)@.len(), |i: int| 0u8),
    no_unwind
{
    let m: usize = registers.len();
    let mut i: usize = 0;
    while i < m
        invariant
            i <= m,
            m == registers@.len(),
            m == old(registers)@.len(),
            forall|j: int| 0 <= j < i ==> registers@[j] == 0,
        decreases m - i,
    {
        registers[i] = 0;
        i = i + 1;
    }
}

/// Raises each register to the one at the same place in `other`, where that
/// one is larger.
fn raise_registers(registers: &mut Vec<u8>, other: &Vec<u8>)
    requires
        old(registers)@.len() == other@.len(),
    ensures
        final(registers)@ == Seq::new(
            old(registers)@.len(),
            |i: int|
                if other@[i] > old(registers)@[i] {
                    other@[i]
                } else {
                    old(registers)@[i]
                },
        ),
    no_unwind
{
    let m: usize = registers.len();
    let mut i: usize = 0;
    while i < m
        invariant
            i <= m,
            m == registers@.len(),
            m == old(registers)@.len(),
            m == other@.len(),
            forall|j: int|
                0 <= j < i ==> #[trigger] registers@[j] == if other@[j] > old(registers)@[j] {
                    other@[j]
                } else {
                    old(registers)@[j]
                },
            forall|j: int| i <= j < m ==> #[trigger] registers@[j] == old(registers)@[j],
        decreases m - i,
    {
        if other[i] > registers[i] {
            registers[i] = other[i];
        }
        i = i + 1;
    }
}

impl HyperLogLog {
    /// The registers match the precision, and each holds 0 or a rank.
    #[verifier::type_invariant]
    spec fn well_formed(self) -> bool {
        &&& self@.valid()
        &&& self.m == self.registers@.len()
    }

    /// Creates a new, empty `HyperLogLog` with precision `p`.
    ///
    /// `p` controls the number of registers `m = 2^p`, and therefore both
    /// the memory usage (`m` bytes) and the expected relative error of the
    /// estimate, which is approximately `1.04 / sqrt(m)`.
    ///
    /// `p` must be in `MIN_PRECISION..=MAX_PRECISION` (4..=16). Values
    /// outside that range are rejected rather than silently clamped.
    ///
    /// # Errors
    ///
    /// Returns [`HyperLogLogError::PrecisionOutOfRange`] if `p` is not in
    /// `MIN_PRECISION..=MAX_PRECISION`.
    pub fn new(p: u8) -> (result: Result<Self, HyperLogLogError>)
        ensures
            match result {
                Ok(hll) => MIN_PRECISION <= p <= MAX_PRECISION && hll@ == Sketch::empty(p)
                    && hll@.valid(),
                Err(e) => !(MIN_PRECISION <= p <= MAX_PRECISION) && e
                    == (HyperLogLogError::PrecisionOutOfRange { requested: p }),
            },
    {
        if p < MIN_PRECISION || p > MAX_PRECISION {
            return Err(HyperLogLogError::PrecisionOutOfRange { requested: p });
        }
        proof {
            lemma_register_count(p);
            vstd::bits::lemma_usize_shl_is_mul(1, p as usize);
        }
        let m: usize = 1usize << p;
        let registers: Vec<u8> = vec![0u8; m];
        assert(registers@ =~= Sketch::empty(p).registers);
        Ok(HyperLogLog { p, m, registers })
    }

    /// Returns the precision `p` this estimator was constructed with.
    pub fn precision(&self) -> (p: u8)
        ensures
            p == self@.precision,
            self@.valid(),
    {
        proof {
            use_type_invariant(self);
        }
        self.p
    }

    /// Returns the number of registers `m = 2^p`.
    pub fn num_registers(&self) -> (m: usize)
        ensures
            m == pow2(self@.precision as nat),
            m == self@.registers.len(),
            self@.valid(),
    {
        proof {
            use_type_invariant(self);
        }
        self.m
    }

    /// Returns the registers, each 0 or the highest rank seen in its bucket.
    pub fn registers(&self) -> (registers: &[u8])
        ensures
            registers@ == self@.registers,
            self@.valid(),
    {
        proof {
            use_type_invariant(self);
        }
        self.registers.as_slice()
    }

    /// Returns how many registers are still zero.
    pub fn zero_registers(&self) -> (count: usize)
        ensures
            count == self@.zero_count(),
            count <= self@.registers.len(),
            count == Set::new(
                |i: int| 0 <= i < self@.registers.len() && self@.registers[i] == 0,
            ).len(),
    {
        proof {
            use_type_invariant(self);
        }
        let mut count: usize = 0;
        let mut i: usize = 0;
        proof {
            self.registers@.take(0).to_multiset_ensures();
            assert(self.registers@.take(0).to_multiset().len() == 0);
        }
        while i < self.m
            invariant
                count <= i <= self.m,
                self.m == self.registers@.len(),
                count == self.registers@.take(i as int).to_multiset().count(0),
            decreases self.m - i,
        {
            proof {
                vstd::seq_lib::to_multiset_build(
                    self.registers@.take(i as int),
                    self.registers@[i as int],
                );
                assert(self.registers@.take(i + 1) =~= self.registers@.take(i as int).push(
                    self.registers@[i as int],
                ));
            }
            if self.registers[i] == 0 {
                count = count + 1;
            }
            i = i + 1;
        }
        assert(self.registers@.take(i as int) =~= self.registers@);
        proof {
            zero_count_counts_places(
                self@,
                Set::new(|i: int| 0 <= i < self@.registers.len() && self@.registers[i] == 0),
            );
        }
        count
    }

    /// Returns `true` if no item has been inserted (every register is zero).
    pub fn is_empty(&self) -> (empty: bool)
        ensures
            empty == self@.is_empty(),
            empty == forall|i: int|
                0 <= i < self@.registers.len() ==> #[trigger] self@.registers[i] == 0,
    {
        proof {
            use_type_invariant(self);
        }
        let mut i: usize = 0;
        while i < self.m
            invariant
                i <= self.m,
                self.m == self.registers@.len(),
                forall|j: int| 0 <= j < i ==> self.registers@[j] == 0,
            decreases self.m - i,
        {
            if self.registers[i] != 0 {
                assert(self@.registers[i as int] != 0);
                return false;
            }
            i = i + 1;
        }
        true
    }

    /// Resets the estimator to its just-constructed state, keeping the
    /// precision and the allocated registers. Useful for reusing one sketch
    /// across time windows without reallocating.
    pub fn clear(&mut self)
        ensures
            final(self)@ == Sketch::empty(old(self)@.precision),
            final(self)@.precision == old(self)@.precision,
            final(self)@.registers.len() == old(self)@.registers.len(),
            forall|i: int|
                0 <= i < final(self)@.registers.len() ==> #[trigger] final(self)@.registers[i] == 0,
            final(self)@.valid(),
    {
        proof {
            use_type_invariant(&*self);
        }
        reset_registers(&mut self.registers);
    }

    /// Hashes `item` and folds it into the estimator.
    ///
    /// Uses [`std::collections::hash_map::DefaultHasher`] (SipHash), which
    /// is **not cryptographically secure** and is not guaranteed to be
    /// stable across Rust versions, but has good avalanche properties
    /// (small input changes flip roughly half the output bits), which is
    /// the property HyperLogLog actually depends on for accuracy. A
    /// production system processing adversarial input, or one that needs
    /// hash stability across versions/processes, would typically use a
    /// dedicated fast 64-bit hash and [`HyperLogLog::insert_hash`] instead.
    pub fn insert<T: Hash + ?Sized>(&mut self, item: &T)
        ensures
            old(self)@.inserts(item, final(self)@),
            final(self)@.precision == old(self)@.precision,
            final(self)@.registers.len() == old(self)@.registers.len(),
            old(self)@.valid(),
            final(self)@.valid(),
    {
        let hash: u64 = hash_of(item);
        self.insert_hash(hash);
    }

    /// Folds one hash into the estimator: the register that its first `p` bits
    /// select is raised to its rank, unless it holds that much already.
    pub fn insert_hash(&mut self, hash: u64)
        ensures
            final(self)@ == old(self)@.insert(hash),
            final(self)@.precision == old(self)@.precision,
            final(self)@.registers.len() == old(self)@.registers.len(),
            forall|i: int|
                #![trigger final(self)@.registers[i]]
                0 <= i < old(self)@.registers.len() ==> final(self)@.registers[i] == max(
                    old(self)@.registers[i] as int,
                    if i == bucket(old(self)@.precision, hash) {
                        rank(old(self)@.precision, hash) as int
                    } else {
                        0
                    },
                ),
            old(self)@.valid(),
            final(self)@.valid(),
    {
        proof {
            use_type_invariant(&*self);
        }
        let index: usize = bucket_of(self.p, hash);
        let rank: u8 = rank_of(self.p, hash);
        if rank > self.registers[index] {
            write_register(&mut self.registers, index, rank);
        }
    }

    /// Merges `other` into `self`, so that `self` afterwards estimates the
    /// cardinality of the *union* of everything inserted into either
    /// estimator.
    ///
    /// This works by taking the register-wise maximum, which is valid
    /// because each register already holds the maximum rank seen for its
    /// bucket; merging two sketches built with the same `p` is equivalent
    /// to having inserted every item into a single sketch.
    ///
    /// # Errors
    ///
    /// Returns [`HyperLogLogError::PrecisionMismatch`] if `other` was
    /// constructed with a different precision `p`, since the register
    /// arrays would not correspond to the same hash-bit layout. The
    /// estimator is then unchanged.
    pub fn merge(&mut self, other: &HyperLogLog) -> (result: Result<(), HyperLogLogError>)
        ensures
            match result {
                Ok(()) => old(self)@.precision == other@.precision && final(self)@ == old(
                    self,
                )@.merge(other@),
                Err(e) => old(self)@.precision != other@.precision && final(self)@ == old(self)@
                    && e == (HyperLogLogError::PrecisionMismatch {
                    self_p: old(self)@.precision,
                    other_p: other@.precision,
                }),
            },
            final(self)@.precision == old(self)@.precision,
            final(self)@.registers.len() == old(self)@.registers.len(),
            old(self)@.precision == other@.precision ==> forall|i: int|
                #![trigger final(self)@.registers[i]]
                0 <= i < old(self)@.registers.len() ==> final(self)@.registers[i] == max(
                    old(self)@.registers[i] as int,
                    other@.registers[i] as int,
                ),
            old(self)@.valid(),
            other@.valid(),
            final(self)@.valid(),
    {
        proof {
            use_type_invariant(&*self);
            use_type_invariant(other);
        }
        if self.p != other.p {
            return Err(
                HyperLogLogError::PrecisionMismatch { self_p: self.p, other_p: other.p },
            );
        }
        raise_registers(&mut self.registers, &other.registers);
        Ok(())
    }
}

impl Default for HyperLogLog {
    /// Creates an estimator with precision 14: 16,384 registers (16 KiB) and
    /// a standard error of about 0.81%, the usual default for cardinality
    /// sketches.
    fn default() -> (hll: Self)
        ensures
            hll@ == Sketch::empty(14),
            hll@.valid(),
    {
        Self::new(14).expect("precision 14 is within MIN_PRECISION..=MAX_PRECISION")
    }
}

impl Clone for HyperLogLog {
    /// Copies the estimator, registers included.
    fn clone(&self) -> (copy: Self)
        ensures
            copy@ == self@,
            copy@.valid(),
    {
        proof {
            use_type_invariant(self);
        }
        let registers: Vec<u8> = self.registers.clone();
        assert(registers@ =~= self.registers@);
        HyperLogLog { p: self.p, m: self.m, registers }
    }
}

}
