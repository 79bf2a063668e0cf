//! The mathematical model of an estimator: its precision and its registers.

use std::hash::Hash;

use vstd::prelude::*;

use crate::{MAX_PRECISION, MIN_PRECISION};

verus! {

use crate::hash_bits::{bucket, rank};
use crate::item::hashes_to;
use vstd::arithmetic::power2::pow2;

/// The state of an estimator, which is what every contract speaks of.
#[verifier::ext_equal]
pub struct Sketch {
    /// Number of leading hash bits that select a register.
    pub precision: u8,
    /// The highest rank seen per register, 0 where none was.
    pub registers: Seq<u8>,
}

impl Sketch {
    /// The states an estimator can be in: a supported precision `p`, `2^p`
    /// registers, and in each either 0 or a rank.
    pub open spec fn valid(self) -> bool {
        &&& MIN_PRECISION <= self.precision <= MAX_PRECISION
        &&& self.registers.len() == pow2(self.precision as nat)
        &&& forall|i: int|
            0 <= i < self.registers.len() ==> #[trigger] self.registers[i] <= 65 - self.precision
    }

    /// The sketch of precision `p` into which nothing was inserted.
    pub open spec fn empty(p: u8) -> Sketch {
        Sketch { precision: p, registers: Seq::new(pow2(p as nat), |i: int| 0u8) }
    }

    /// Whether every register is 0.
    pub open spec fn is_empty(self) -> bool {
        forall|i: int| 0 <= i < self.registers.len() ==> #[trigger] self.registers[i] == 0
    }

    /// The register that `hash` selects.
    pub open spec fn bucket(self, hash: u64) -> int {
        bucket(self.precision, hash) as int
    }

    /// The rank of `hash` at this precision.
    pub open spec fn rank(self, hash: u64) -> nat {
        rank(self.precision, hash)
    }

    /// The sketch after `hash` was folded in: the register that `hash` selects
    /// holds the larger of its old value and the rank of `hash`.
    pub open spec fn insert(self, hash: u64) -> Sketch {
        let i = self.bucket(hash);
        if self.rank(hash) > self.registers[i] {
            Sketch { registers: self.registers.update(i, self.rank(hash) as u8), ..self }
        } else {
            self
        }
    }

    /// The sketch after all of `hashes` were folded in, in order.
    pub open spec fn insert_all(self, hashes: Seq<u64>) -> Sketch
        decreases hashes.len(),
    {
        if hashes.len() == 0 {
            self
        } else {
            self.insert_all(hashes.drop_last()).insert(hashes.last())
        }
    }

    /// Whether `after` is a sketch that inserting `item` can lead to: the one
    /// with a hash of `item` folded in.
    pub open spec fn inserts<T: Hash + ?Sized>(self, item: &T, after: Sketch) -> bool {
        exists|hash: u64| #[trigger] hashes_to(item, hash) && after == self.insert(hash)
    }

    /// Whether the register that `hash` selects is already at its rank or
    /// above.
    pub open spec fn covers(self, hash: u64) -> bool {
        self.rank(hash) <= self.registers[self.bucket(hash)]
    }

    /// The register-wise maximum of two sketches.
    pub open spec fn merge(self, other: Sketch) -> Sketch {
        Sketch {
            registers: Seq::new(
                self.registers.len(),
                |i: int|
                    if other.registers[i] > self.registers[i] {
                        other.registers[i]
                    } else {
                        self.registers[i]
                    },
            ),
            ..self
        }
    }

    /// How many registers are 0.
    pub open spec fn zero_count(self) -> nat {
        self.registers.to_multiset().count(0)
    }

    /// Whether this is the sketch of exactly these hashes: every register
    /// holds the highest rank among the hashes that select it, and 0 where no
    /// hash does.
    pub open spec fn summarizes(self, hashes: Set<u64>) -> bool {
        &&& forall|h: u64| #[trigger]
            hashes.contains(h) ==> self.covers(h)
        &&& forall|i: int|
            0 <= i < self.registers.len() && #[trigger] self.registers[i] > 0 ==> exists|h: u64|
                #[trigger] hashes.contains(h) && self.bucket(h) == i && self.rank(h)
                    == self.registers[i]
    }
}

}
