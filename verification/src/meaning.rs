//! What each part of the model means, in plain arithmetic and sequences.

use std::hash::Hash;

use vstd::prelude::*;

use crate::error::HyperLogLogError;
use crate::sketch::Sketch;

verus! {

use crate::error::decimal;
use crate::hash_bits::{bucket, hash_bit, rank};
use crate::item::hashes_to;
use crate::laws::{hashes_of, insert_all_never_lowers, insert_all_summarizes};
use crate::laws::{insert_keeps_valid, rank_measures_rest, sketch_is_determined};
use vstd::arithmetic::power2::pow2;

/// Bit `i` of a hash, counted from the left, is the lowest bit once the
/// `63 - i` bits after it are shifted out.
pub proof fn bit_is_shifted_out(hash: u64, i: u64)
    requires
        i < 64,
    ensures
        hash_bit(hash, i as nat) <==> (hash >> ((63 - i) as u64)) & 1 == 1,
{
    let k = (63 - i) as u64;
    vstd::bits::lemma_u64_shr_is_div(hash, k);
    let shifted = hash >> k;
    assert(shifted & 1 == shifted % 2) by (bit_vector);
}

/// A hash lies in the stretch of `2^(64 - p)` numbers that its register stands
/// for: the register is the first `p` bits, read as a number.
pub proof fn bucket_is_first_bits(p: u8, hash: u64)
    requires
        p <= 64,
    ensures
        bucket(p, hash) * pow2((64 - p) as nat) <= hash,
        hash < (bucket(p, hash) + 1) * pow2((64 - p) as nat),
{
    let unit = pow2((64 - p) as nat) as int;
    let i = bucket(p, hash) as int;
    vstd::arithmetic::power2::lemma_pow2_pos((64 - p) as nat);
    vstd::arithmetic::div_mod::lemma_fundamental_div_mod(hash as int, unit);
    vstd::arithmetic::div_mod::lemma_mod_bound(hash as int, unit);
    assert(i * unit <= hash < (i + 1) * unit) by (nonlinear_arith)
        requires
            hash as int == unit * i + hash as int % unit,
            0 <= hash as int % unit < unit,
    ;
}

/// No other register's stretch holds the hash.
pub proof fn bucket_is_determined(p: u8, hash: u64, i: nat)
    requires
        p <= 64,
        i * pow2((64 - p) as nat) <= hash < (i + 1) * pow2((64 - p) as nat),
    ensures
        bucket(p, hash) == i,
{
    let unit = pow2((64 - p) as nat) as int;
    let b = bucket(p, hash) as int;
    bucket_is_first_bits(p, hash);
    vstd::arithmetic::power2::lemma_pow2_pos((64 - p) as nat);
    assert(b == i) by (nonlinear_arith)
        requires
            unit > 0,
            b * unit <= hash < (b + 1) * unit,
            i * unit <= hash < (i + 1) * unit,
    ;
}

/// The rank follows from the size of the last `64 - p` bits alone: rank `r`
/// for the numbers from `2^(64 - p - r)` up to twice that, and `64 - p + 1`
/// for 0.
pub proof fn rank_is_determined(p: u8, hash: u64, r: nat)
    requires
        p < 64,
        ({
            let width = (64 - p) as nat;
            let rest = hash as nat % pow2(width);
            if rest == 0 {
                r == width + 1
            } else {
                1 <= r <= width && pow2((width - r) as nat) <= rest < pow2((width - r + 1) as nat)
            }
        }),
    ensures
        rank(p, hash) == r,
{
    let width = (64 - p) as nat;
    let found = rank(p, hash);
    rank_measures_rest(p, hash);
    if found <= width {
        vstd::arithmetic::power2::lemma_pow2_pos((width - found) as nat);
    }
    if found < r && r <= width {
        if found + 1 < r {
            vstd::arithmetic::power2::lemma_pow2_strictly_increases(
                (width - r + 1) as nat,
                (width - found) as nat,
            );
        }
    }
    if r < found && found <= width {
        if r + 1 < found {
            vstd::arithmetic::power2::lemma_pow2_strictly_increases(
                (width - found + 1) as nat,
                (width - r) as nat,
            );
        }
    }
}

/// Folding in the hash `i * 2^(64 - p) + rest` raises register `i`, and that
/// one only, to the position of the leftmost 1-bit of `rest`, unless it holds
/// more already. Neither the precision nor the number of registers changes.
pub proof fn insert_raises_selected_register(s: Sketch, hash: u64, i: nat, rest: nat, r: nat)
    requires
        s.valid(),
        ({
            let width = (64 - s.precision) as nat;
            &&& hash == i * pow2(width) + rest
            &&& rest < pow2(width)
            &&& if rest == 0 {
                r == width + 1
            } else {
                1 <= r <= width && pow2((width - r) as nat) <= rest < pow2((width - r + 1) as nat)
            }
        }),
    ensures
        s.insert(hash).precision == s.precision,
        s.insert(hash).registers.len() == s.registers.len(),
        i < s.registers.len(),
        s.insert(hash).registers[i as int] == vstd::math::max(
            s.registers[i as int] as int,
            r as int,
        ),
        forall|j: int|
            0 <= j < s.registers.len() && j != i ==> #[trigger] s.insert(hash).registers[j]
                == s.registers[j],
{
    let width = (64 - s.precision) as nat;
    let unit = pow2(width);
    assert((i + 1) * unit == i * unit + unit) by (nonlinear_arith);
    bucket_is_determined(s.precision, hash, i);
    assert(hash as nat % unit == rest) by {
        vstd::arithmetic::div_mod::lemma_fundamental_div_mod_converse(
            hash as int,
            unit as int,
            i as int,
            rest as int,
        );
    }
    rank_is_determined(s.precision, hash, r);
    insert_keeps_valid(s, hash);
    assert(s.bucket(hash) == i);
    assert(s.rank(hash) == r);
}

/// The states of an estimator: a precision from 4 to 16, as many registers as
/// `p` bits can name, and no register above the highest rank.
pub proof fn valid_states(s: Sketch)
    ensures
        s.valid() <==> {
            &&& 4 <= s.precision <= 16
            &&& s.registers.len() == pow2(s.precision as nat)
            &&& forall|i: int|
                0 <= i < s.registers.len() ==> #[trigger] s.registers[i] + s.precision <= 65
        },
{
}

/// The registers of an empty sketch, one by one.
pub proof fn empty_state(p: u8)
    ensures
        Sketch::empty(p).precision == p,
        Sketch::empty(p).registers.len() == pow2(p as nat),
        forall|i: int|
            0 <= i < pow2(p as nat) ==> #[trigger] Sketch::empty(p).registers[i] == 0,
{
}

/// One register above 0 makes a sketch not empty, and nothing else does.
pub proof fn empty_means_zero_everywhere(s: Sketch)
    ensures
        !s.is_empty() <==> exists|i: int|
            0 <= i < s.registers.len() && #[trigger] s.registers[i] > 0,
{
    if !s.is_empty() {
        let i = choose|i: int| 0 <= i < s.registers.len() && #[trigger] s.registers[i] != 0;
        assert(s.registers[i] > 0);
    }
}

/// A sketch covers exactly the hashes that would not change it.
pub proof fn covered_means_unchanged(s: Sketch, hash: u64)
    requires
        s.valid(),
    ensures
        s.covers(hash) <==> s.insert(hash) == s,
{
    insert_keeps_valid(s, hash);
    if !s.covers(hash) {
        assert(s.insert(hash).registers[s.bucket(hash)] != s.registers[s.bucket(hash)]);
    }
}

/// Merging keeps the precision and the number of registers, and each register
/// is the smallest that is at least as large as both it came from.
pub proof fn merge_is_least_above_both(a: Sketch, b: Sketch)
    requires
        a.valid(),
        b.valid(),
        a.precision == b.precision,
    ensures
        a.merge(b).precision == a.precision,
        a.merge(b).registers.len() == a.registers.len(),
        forall|i: int|
            #![trigger a.merge(b).registers[i]]
            0 <= i < a.registers.len() ==> {
                &&& a.merge(b).registers[i] >= a.registers[i]
                &&& a.merge(b).registers[i] >= b.registers[i]
                &&& a.merge(b).registers[i] == a.registers[i] || a.merge(b).registers[i]
                    == b.registers[i]
            },
{
}

/// No hashes leave a sketch as it is, and each further hash is one insertion.
pub proof fn insert_all_goes_one_by_one(s: Sketch, hashes: Seq<u64>, hash: u64)
    ensures
        s.insert_all(Seq::empty()) == s,
        s.insert_all(seq![hash]) == s.insert(hash),
        s.insert_all(hashes.push(hash)) == s.insert_all(hashes).insert(hash),
{
    assert(hashes.push(hash).drop_last() =~= hashes);
    assert(seq![hash].drop_last() =~= Seq::empty());
    assert(s.insert_all(seq![hash].drop_last()) == s);
}

/// A sketch of precision `p` summarizes the hashes of a stream exactly when it
/// is what inserting them, one after the other, into an empty one gives.
pub proof fn summary_means_inserted(s: Sketch, hashes: Seq<u64>)
    requires
        s.valid(),
    ensures
        s.summarizes(hashes.to_set()) <==> s == Sketch::empty(s.precision).insert_all(hashes),
{
    let built = Sketch::empty(s.precision).insert_all(hashes);
    insert_all_summarizes(s.precision, hashes);
    insert_all_never_lowers(Sketch::empty(s.precision), hashes);
    if s.summarizes(hashes.to_set()) {
        sketch_is_determined(s, built, hashes.to_set());
    }
}

/// For each register and each rank there is a hash that selects the one and
/// has the other.
proof fn lemma_hash_exists(p: u8, i: nat, r: nat) -> (hash: u64)
    requires
        p < 64,
        i < pow2(p as nat),
        1 <= r <= 65 - p,
    ensures
        bucket(p, hash) == i,
        rank(p, hash) == r,
{
    let width = (64 - p) as nat;
    let unit = pow2(width);
    let rest = if r <= width {
        pow2((width - r) as nat)
    } else {
        0
    };
    vstd::arithmetic::power2::lemma_pow2_pos(width);
    if r <= width {
        vstd::arithmetic::power2::lemma_pow2_pos((width - r) as nat);
        vstd::arithmetic::power2::lemma_pow2_strictly_increases((width - r) as nat, width);
        vstd::arithmetic::power2::lemma_pow2_strictly_increases(
            (width - r) as nat,
            (width - r + 1) as nat,
        );
    }
    vstd::arithmetic::power2::lemma2_to64_rest();
    vstd::arithmetic::power2::lemma_pow2_adds(p as nat, width);
    let names = pow2(p as nat);
    assert(i * unit + rest < names * unit) by (nonlinear_arith)
        requires
            i < names,
            rest < unit,
    ;
    assert((i + 1) * unit == i * unit + unit) by (nonlinear_arith);
    let hash = (i * unit + rest) as u64;
    bucket_is_determined(p, hash, i);
    vstd::arithmetic::div_mod::lemma_fundamental_div_mod_converse(
        hash as int,
        unit as int,
        i as int,
        rest as int,
    );
    rank_is_determined(p, hash, r);
    hash
}

/// The first `n` registers of a valid sketch can be filled from an empty one.
proof fn lemma_fill(s: Sketch, n: nat) -> (hashes: Seq<u64>)
    requires
        s.valid(),
        n <= s.registers.len(),
    ensures
        forall|i: int|
            0 <= i < s.registers.len() ==> #[trigger] Sketch::empty(s.precision).insert_all(
                hashes,
            ).registers[i] == if i < n {
                s.registers[i]
            } else {
                0
            },
    decreases n,
{
    let none = Sketch::empty(s.precision);
    if n == 0 {
        Seq::empty()
    } else {
        let i = (n - 1) as nat;
        let before = lemma_fill(s, i);
        let r = s.registers[i as int] as nat;
        insert_all_never_lowers(none, before);
        assert(none.insert_all(before).registers[i as int] == 0);
        if r == 0 {
            before
        } else {
            let hash = lemma_hash_exists(s.precision, i, r);
            insert_all_goes_one_by_one(none, before, hash);
            assert(none.insert_all(before).bucket(hash) == i);
            assert(none.insert_all(before).rank(hash) == r);
            before.push(hash)
        }
    }
}

/// Every valid sketch is the sketch of some stream of hashes.
pub proof fn valid_means_reachable(s: Sketch) -> (hashes: Seq<u64>)
    requires
        s.valid(),
    ensures
        s == Sketch::empty(s.precision).insert_all(hashes),
{
    let hashes = lemma_fill(s, s.registers.len());
    insert_all_never_lowers(Sketch::empty(s.precision), hashes);
    assert(s =~= Sketch::empty(s.precision).insert_all(hashes));
    hashes
}

/// Inserting an item can lead to exactly the sketches that folding in one of
/// its hashes gives.
pub proof fn inserting_an_item_is_folding_in_a_hash<T: Hash + ?Sized>(
    s: Sketch,
    item: &T,
    hash: u64,
)
    requires
        hashes_to(item, hash),
    ensures
        s.inserts(item, s.insert(hash)),
{
}

/// Inserting an item keeps the precision and the number of registers. It
/// raises the register that a hash of the item selects to the rank of that
/// hash, unless it holds more already, and leaves every other one alone.
pub proof fn item_raises_one_register<T: Hash + ?Sized>(s: Sketch, item: &T, after: Sketch) -> (hash:
    u64)
    requires
        s.valid(),
        s.inserts(item, after),
    ensures
        hashes_to(item, hash),
        after.precision == s.precision,
        after.registers.len() == s.registers.len(),
        bucket(s.precision, hash) < s.registers.len(),
        after.registers[bucket(s.precision, hash) as int] == vstd::math::max(
            s.registers[bucket(s.precision, hash) as int] as int,
            rank(s.precision, hash) as int,
        ),
        forall|j: int|
            0 <= j < s.registers.len() && j != bucket(s.precision, hash)
                ==> #[trigger] after.registers[j] == s.registers[j],
{
    let hash = choose|h: u64| #[trigger] hashes_to(item, h) && after == s.insert(h);
    insert_keeps_valid(s, hash);
    hash
}

/// The zeros of a sequence are as many as the places where it holds 0.
proof fn lemma_zeros_are_places(registers: Seq<u8>, places: Set<int>)
    requires
        forall|i: int| #[trigger]
            places.contains(i) <==> 0 <= i < registers.len() && registers[i] == 0,
    ensures
        places.finite(),
        places.len() == registers.to_multiset().count(0),
    decreases registers.len(),
{
    registers.to_multiset_ensures();
    if registers.len() == 0 {
        assert(places =~= Set::empty());
    } else {
        let rest = registers.drop_last();
        let last = registers.len() - 1;
        let before = places.remove(last);
        lemma_zeros_are_places(rest, before);
        vstd::seq_lib::to_multiset_build(rest, registers.last());
        assert(rest.push(registers.last()) =~= registers);
        if registers.last() == 0 {
            assert(places =~= before.insert(last));
        } else {
            assert(places =~= before);
        }
    }
}

/// The zero count is the number of places whose register is 0.
pub proof fn zero_count_counts_places(s: Sketch, places: Set<int>)
    requires
        forall|i: int| #[trigger]
            places.contains(i) <==> 0 <= i < s.registers.len() && s.registers[i] == 0,
    ensures
        places.finite(),
        s.zero_count() == places.len(),
{
    lemma_zeros_are_places(s.registers, places);
}

/// A hash lowers the zero count by one if the register that it selects was
/// still 0, and leaves it alone otherwise.
pub proof fn insert_uses_up_one_zero(s: Sketch, hash: u64)
    requires
        s.valid(),
    ensures
        s.registers[bucket(s.precision, hash) as int] == 0 ==> s.insert(hash).zero_count() + 1
            == s.zero_count(),
        s.registers[bucket(s.precision, hash) as int] != 0 ==> s.insert(hash).zero_count()
            == s.zero_count(),
{
    let t = s.insert(hash);
    let i = s.bucket(hash);
    let before = Set::new(|j: int| 0 <= j < s.registers.len() && s.registers[j] == 0);
    let after = Set::new(|j: int| 0 <= j < t.registers.len() && t.registers[j] == 0);
    insert_keeps_valid(s, hash);
    zero_count_counts_places(s, before);
    zero_count_counts_places(t, after);
    assert(after =~= before.remove(i));
}

/// A decimal numeral has digits only, no needless leading zero, and the value
/// that its digits give by their places.
pub proof fn numeral_reads_back(n: u8)
    ensures
        ({
            let text = decimal(n as nat);
            &&& 1 <= text.len() <= 3
            &&& forall|i: int| 0 <= i < text.len() ==> '0' <= #[trigger] text[i] <= '9'
            &&& text.len() > 1 ==> text[0] != '0'
            &&& text.len() == 1 ==> n == text[0] as int - '0' as int
            &&& text.len() == 2 ==> n == 10 * (text[0] as int - '0' as int) + (text[1] as int
                - '0' as int)
            &&& text.len() == 3 ==> n == 100 * (text[0] as int - '0' as int) + 10 * (text[1] as int
                - '0' as int) + (text[2] as int - '0' as int)
        }),
{
    reveal_with_fuel(decimal, 3);
}

/// The words about a precision out of range: it is named, and so are the
/// smallest and the largest that are supported.
pub proof fn out_of_range_words(requested: u8)
    ensures
        (HyperLogLogError::PrecisionOutOfRange { requested }).spec_message()
            == "precision p = "@ + decimal(requested as nat)
            + " is out of range; must be between 4 and 16 inclusive"@,
{
    reveal_with_fuel(decimal, 3);
    reveal_strlit("precision p = ");
    reveal_strlit(" is out of range; must be between ");
    reveal_strlit(" and ");
    reveal_strlit(" inclusive");
    reveal_strlit(" is out of range; must be between 4 and 16 inclusive");
    assert(" is out of range; must be between "@ + decimal(4) + " and "@ + decimal(16)
        + " inclusive"@ =~= " is out of range; must be between 4 and 16 inclusive"@);
    assert((HyperLogLogError::PrecisionOutOfRange { requested }).spec_message()
        =~= "precision p = "@ + decimal(requested as nat) + (
    " is out of range; must be between "@ + decimal(4) + " and "@ + decimal(16) + " inclusive"@));
}

/// The words about a refused merge: first the precision of the estimator that
/// was to go in, then that of the one it was to go into.
pub proof fn mismatch_words(self_p: u8, other_p: u8)
    ensures
        (HyperLogLogError::PrecisionMismatch { self_p, other_p }).spec_message()
            == "cannot merge HyperLogLog with p = "@ + decimal(other_p as nat)
            + " into one with p = "@ + decimal(self_p as nat) + "; precisions must match"@,
{
}

/// Hashes go with items one to one and in order.
pub proof fn hashes_go_with_items<'a, T: Hash + ?Sized>(
    items: Seq<&'a T>,
    hashes: Seq<u64>,
    item: &'a T,
    hash: u64,
)
    ensures
        hashes_of(items, Seq::empty()) <==> items.len() == 0,
        hashes_of(items.push(item), hashes.push(hash)) <==> hashes_of(items, hashes)
            && hashes_to(item, hash),
{
    let more = items.push(item);
    let more_hashes = hashes.push(hash);
    if hashes_of(more, more_hashes) {
        assert(hashes_to(more[items.len() as int], more_hashes[items.len() as int]));
        assert forall|i: int| 0 <= i < items.len() implies #[trigger] hashes_to(
            items[i],
            #[trigger] hashes[i],
        ) by {
            assert(hashes_to(more[i], more_hashes[i]));
        }
    }
    if hashes_of(items, hashes) && hashes_to(item, hash) {
        assert forall|i: int| 0 <= i < more.len() implies #[trigger] hashes_to(
            more[i],
            #[trigger] more_hashes[i],
        ) by {
            if i < items.len() {
                assert(hashes_to(items[i], hashes[i]));
            }
        }
    }
}

}
