//! What holds of sketches as a whole, across operations.

use std::hash::Hash;

use vstd::prelude::*;

use crate::sketch::Sketch;

verus! {

use crate::hash_bits::{first_one_from, hash_bit, rank};
use crate::hash_bits::{lemma_bucket_bound, lemma_first_one_found, lemma_rank_bounds};
use crate::item::{hash_is_stable, hashes_to};
use crate::{MAX_PRECISION, MIN_PRECISION};
use vstd::arithmetic::power2::pow2;

/// An empty sketch is valid, and it is empty.
pub proof fn empty_is_valid(p: u8)
    requires
        MIN_PRECISION <= p <= MAX_PRECISION,
    ensures
        Sketch::empty(p).valid(),
        Sketch::empty(p).is_empty(),
{
}

/// The only empty sketch of a precision is the one that was just constructed.
pub proof fn empty_is_unique(s: Sketch)
    requires
        s.valid(),
        s.is_empty(),
    ensures
        s == Sketch::empty(s.precision),
{
    assert(s =~= Sketch::empty(s.precision));
}

/// Inserting keeps a sketch valid and keeps its precision.
pub proof fn insert_keeps_valid(s: Sketch, hash: u64)
    requires
        s.valid(),
    ensures
        s.insert(hash).valid(),
        s.insert(hash).precision == s.precision,
        0 <= s.bucket(hash) < s.registers.len(),
        1 <= s.rank(hash) <= 65 - s.precision,
{
    lemma_bucket_bound(s.precision, hash);
    lemma_rank_bounds(s.precision, hash);
}

/// Inserting raises the one register that the hash selects to the maximum of
/// what it held and the rank of the hash, and leaves every other one alone.
pub proof fn insert_is_maximum(s: Sketch, hash: u64, i: int)
    requires
        s.valid(),
        0 <= i < s.registers.len(),
    ensures
        s.insert(hash).registers.len() == s.registers.len(),
        i == s.bucket(hash) ==> s.insert(hash).registers[i] == vstd::math::max(
            s.registers[i] as int,
            s.rank(hash) as int,
        ),
        i != s.bucket(hash) ==> s.insert(hash).registers[i] == s.registers[i],
{
    insert_keeps_valid(s, hash);
}

/// Merging two valid sketches of one precision gives a valid sketch of it.
pub proof fn merge_keeps_valid(a: Sketch, b: Sketch)
    requires
        a.valid(),
        b.valid(),
        a.precision == b.precision,
    ensures
        a.merge(b).valid(),
        a.merge(b).precision == a.precision,
{
}

/// No register ever falls when a hash is inserted.
pub proof fn insert_never_lowers(s: Sketch, hash: u64, i: int)
    requires
        s.valid(),
        0 <= i < s.registers.len(),
    ensures
        s.registers[i] <= s.insert(hash).registers[i],
{
    insert_keeps_valid(s, hash);
}

/// Inserting a hash a second time changes nothing.
pub proof fn insert_is_idempotent(s: Sketch, hash: u64)
    requires
        s.valid(),
    ensures
        s.insert(hash).insert(hash) == s.insert(hash),
{
    insert_keeps_valid(s, hash);
}

/// The order in which two hashes are inserted does not matter.
pub proof fn insert_commutes(s: Sketch, h1: u64, h2: u64)
    requires
        s.valid(),
    ensures
        s.insert(h1).insert(h2) == s.insert(h2).insert(h1),
{
    insert_keeps_valid(s, h1);
    insert_keeps_valid(s, h2);
    assert(s.insert(h1).insert(h2) =~= s.insert(h2).insert(h1));
}

/// A sketch into which something was inserted is not empty.
pub proof fn insert_is_not_empty(s: Sketch, hash: u64)
    requires
        s.valid(),
    ensures
        !s.insert(hash).is_empty(),
{
    insert_keeps_valid(s, hash);
    assert(s.insert(hash).registers[s.bucket(hash)] > 0);
}

/// Which of two sketches is merged into the other does not matter.
pub proof fn merge_is_commutative(a: Sketch, b: Sketch)
    requires
        a.valid(),
        b.valid(),
        a.precision == b.precision,
    ensures
        a.merge(b) == b.merge(a),
{
    assert(a.merge(b) =~= b.merge(a));
}

/// Partial sketches can be merged in any grouping.
pub proof fn merge_is_associative(a: Sketch, b: Sketch, c: Sketch)
    requires
        a.valid(),
        b.valid(),
        c.valid(),
        a.precision == b.precision,
        b.precision == c.precision,
    ensures
        a.merge(b).merge(c) == a.merge(b.merge(c)),
{
    assert(a.merge(b).merge(c) =~= a.merge(b.merge(c)));
}

/// Merging a sketch with itself changes nothing.
pub proof fn merge_is_idempotent(a: Sketch)
    requires
        a.valid(),
    ensures
        a.merge(a) == a,
{
    assert(a.merge(a) =~= a);
}

/// Merging an empty sketch into another changes nothing.
pub proof fn merge_with_empty(a: Sketch)
    requires
        a.valid(),
    ensures
        a.merge(Sketch::empty(a.precision)) == a,
{
    assert(a.merge(Sketch::empty(a.precision)) =~= a);
}

/// A merged sketch has in each register the larger of the two it came from.
pub proof fn merge_is_maximum(a: Sketch, b: Sketch, i: int)
    requires
        a.valid(),
        b.valid(),
        a.precision == b.precision,
        0 <= i < a.registers.len(),
    ensures
        a.merge(b).registers[i] == vstd::math::max(a.registers[i] as int, b.registers[i] as int),
{
}

/// A merged sketch covers every hash that one of the two covers.
pub proof fn merge_covers(a: Sketch, b: Sketch, hash: u64)
    requires
        a.valid(),
        b.valid(),
        a.precision == b.precision,
        a.covers(hash) || b.covers(hash),
    ensures
        a.merge(b).covers(hash),
{
    insert_keeps_valid(a, hash);
}

/// A hash inserted before a merge might as well be inserted after it.
pub proof fn insert_then_merge(a: Sketch, b: Sketch, hash: u64)
    requires
        a.valid(),
        b.valid(),
        a.precision == b.precision,
    ensures
        a.merge(b.insert(hash)) == a.merge(b).insert(hash),
{
    insert_keeps_valid(b, hash);
    insert_keeps_valid(a.merge(b), hash);
    assert(a.merge(b.insert(hash)) =~= a.merge(b).insert(hash));
}

/// An empty sketch is the sketch of no hashes.
pub proof fn empty_summarizes_nothing(p: u8)
    requires
        MIN_PRECISION <= p <= MAX_PRECISION,
    ensures
        Sketch::empty(p).summarizes(Set::empty()),
{
}

/// Inserting a hash into the sketch of a set of hashes gives the sketch of the
/// set with that hash in it.
pub proof fn insert_summarizes(s: Sketch, hashes: Set<u64>, hash: u64)
    requires
        s.valid(),
        s.summarizes(hashes),
    ensures
        s.insert(hash).summarizes(hashes.insert(hash)),
{
    let t = s.insert(hash);
    let all = hashes.insert(hash);
    insert_keeps_valid(s, hash);
    assert forall|h: u64| #[trigger] all.contains(h) implies t.rank(h) <= t.registers[t.bucket(
        h,
    )] by {
        insert_keeps_valid(s, h);
        if h != hash {
            assert(hashes.contains(h));
        }
    }
    assert forall|i: int|
        0 <= i < t.registers.len() && #[trigger] t.registers[i] > 0 implies exists|h: u64|
        #[trigger] all.contains(h) && t.bucket(h) == i && t.rank(h) == t.registers[i] by {
        if i == s.bucket(hash) && s.rank(hash) > s.registers[i] {
            assert(all.contains(hash));
        } else {
            assert(s.registers[i] > 0);
            let h = choose|h: u64| #[trigger]
                hashes.contains(h) && s.bucket(h) == i && s.rank(h) == s.registers[i];
            assert(all.contains(h));
        }
    }
}

/// Merging the sketches of two sets of hashes gives the sketch of their union.
pub proof fn merge_summarizes_union(a: Sketch, b: Sketch, in_a: Set<u64>, in_b: Set<u64>)
    requires
        a.valid(),
        b.valid(),
        a.precision == b.precision,
        a.summarizes(in_a),
        b.summarizes(in_b),
    ensures
        a.merge(b).summarizes(in_a.union(in_b)),
{
    let t = a.merge(b);
    let all = in_a.union(in_b);
    assert forall|h: u64| #[trigger] all.contains(h) implies t.rank(h) <= t.registers[t.bucket(
        h,
    )] by {
        insert_keeps_valid(a, h);
        if in_a.contains(h) {
        } else {
            assert(in_b.contains(h));
        }
    }
    assert forall|i: int|
        0 <= i < t.registers.len() && #[trigger] t.registers[i] > 0 implies exists|h: u64|
        #[trigger] all.contains(h) && t.bucket(h) == i && t.rank(h) == t.registers[i] by {
        if b.registers[i] > a.registers[i] {
            let h = choose|h: u64| #[trigger]
                in_b.contains(h) && b.bucket(h) == i && b.rank(h) == b.registers[i];
            assert(all.contains(h));
        } else {
            let h = choose|h: u64| #[trigger]
                in_a.contains(h) && a.bucket(h) == i && a.rank(h) == a.registers[i];
            assert(all.contains(h));
        }
    }
}

/// A set of hashes has one sketch per precision: nothing else about how the
/// hashes came in, neither order nor repetition, leaves a trace.
pub proof fn sketch_is_determined(a: Sketch, b: Sketch, hashes: Set<u64>)
    requires
        a.valid(),
        b.valid(),
        a.precision == b.precision,
        a.summarizes(hashes),
        b.summarizes(hashes),
    ensures
        a == b,
{
    assert forall|i: int| 0 <= i < a.registers.len() implies a.registers[i] == b.registers[i] by {
        if a.registers[i] > 0 {
            let h = choose|h: u64| #[trigger]
                hashes.contains(h) && a.bucket(h) == i && a.rank(h) == a.registers[i];
            assert(b.rank(h) <= b.registers[b.bucket(h)]);
        }
        if b.registers[i] > 0 {
            let h = choose|h: u64| #[trigger]
                hashes.contains(h) && b.bucket(h) == i && b.rank(h) == b.registers[i];
            assert(a.rank(h) <= a.registers[a.bucket(h)]);
        }
    }
    assert(a =~= b);
}

/// Inserting a hash that is already in the set that the sketch summarizes
/// changes nothing.
pub proof fn known_hash_changes_nothing(s: Sketch, hashes: Set<u64>, hash: u64)
    requires
        s.valid(),
        s.summarizes(hashes),
        hashes.contains(hash),
    ensures
        s.insert(hash) == s,
{
}

/// A sketch is empty exactly when it is the sketch of no hashes.
pub proof fn empty_means_nothing_inserted(s: Sketch, hashes: Set<u64>)
    requires
        s.valid(),
        s.summarizes(hashes),
    ensures
        s.is_empty() <==> hashes == Set::<u64>::empty(),
{
    if s.is_empty() {
        assert forall|h: u64| !hashes.contains(h) by {
            insert_keeps_valid(s, h);
        }
        assert(hashes =~= Set::empty());
    } else {
        let i = choose|i: int| 0 <= i < s.registers.len() && #[trigger] s.registers[i] != 0;
        let h = choose|h: u64| #[trigger]
            hashes.contains(h) && s.bucket(h) == i && s.rank(h) == s.registers[i];
        assert(hashes.contains(h));
    }
}

/// Inserting a sequence of hashes keeps a sketch valid and lowers no register.
pub proof fn insert_all_never_lowers(s: Sketch, hashes: Seq<u64>)
    requires
        s.valid(),
    ensures
        s.insert_all(hashes).valid(),
        s.insert_all(hashes).precision == s.precision,
        forall|i: int|
            0 <= i < s.registers.len() ==> #[trigger] s.registers[i] <= s.insert_all(
                hashes,
            ).registers[i],
    decreases hashes.len(),
{
    if hashes.len() > 0 {
        let rest = hashes.drop_last();
        insert_all_never_lowers(s, rest);
        insert_keeps_valid(s.insert_all(rest), hashes.last());
    }
}

/// Inserting one sequence of hashes and then another is inserting both.
pub proof fn insert_all_of_concatenation(s: Sketch, xs: Seq<u64>, ys: Seq<u64>)
    ensures
        s.insert_all(xs + ys) == s.insert_all(xs).insert_all(ys),
    decreases ys.len(),
{
    if ys.len() == 0 {
        assert(xs + ys =~= xs);
    } else {
        insert_all_of_concatenation(s, xs, ys.drop_last());
        assert((xs + ys).drop_last() =~= xs + ys.drop_last());
    }
}

/// A sketch covers every hash that was inserted into it.
pub proof fn insert_all_covers(s: Sketch, hashes: Seq<u64>, hash: u64)
    requires
        s.valid(),
        hashes.contains(hash),
    ensures
        s.insert_all(hashes).covers(hash),
    decreases hashes.len(),
{
    let rest = hashes.drop_last();
    let before = s.insert_all(rest);
    insert_all_never_lowers(s, rest);
    insert_keeps_valid(before, hashes.last());
    if hashes.last() != hash {
        let i = choose|i: int| 0 <= i < hashes.len() && hashes[i] == hash;
        assert(rest[i] == hash);
        insert_all_covers(s, rest, hash);
        insert_keeps_valid(before, hash);
    }
}

/// Hashes that a sketch covers change nothing when they are inserted.
pub proof fn covered_hashes_change_nothing(s: Sketch, hashes: Seq<u64>)
    requires
        forall|h: u64| #[trigger] hashes.contains(h) ==> s.covers(h),
    ensures
        s.insert_all(hashes) == s,
    decreases hashes.len(),
{
    if hashes.len() > 0 {
        let rest = hashes.drop_last();
        assert forall|h: u64| #[trigger] rest.contains(h) implies s.covers(h) by {
            let i = choose|i: int| 0 <= i < rest.len() && rest[i] == h;
            assert(hashes[i] == h);
            assert(hashes.contains(h));
        }
        covered_hashes_change_nothing(s, rest);
        assert(hashes[hashes.len() - 1] == hashes.last());
        assert(hashes.contains(hashes.last()));
    }
}

/// Inserting a whole stream a second time changes nothing.
pub proof fn reinserting_changes_nothing(s: Sketch, hashes: Seq<u64>)
    requires
        s.valid(),
    ensures
        s.insert_all(hashes).insert_all(hashes) == s.insert_all(hashes),
{
    assert forall|h: u64| #[trigger] hashes.contains(h) implies s.insert_all(hashes).covers(h) by {
        insert_all_covers(s, hashes, h);
    }
    covered_hashes_change_nothing(s.insert_all(hashes), hashes);
}

/// Inserting a sequence of hashes into an empty sketch gives the sketch of the
/// set of them.
pub proof fn insert_all_summarizes(p: u8, hashes: Seq<u64>)
    requires
        MIN_PRECISION <= p <= MAX_PRECISION,
    ensures
        Sketch::empty(p).insert_all(hashes).summarizes(hashes.to_set()),
    decreases hashes.len(),
{
    if hashes.len() == 0 {
        assert(hashes.to_set() =~= Set::empty());
    } else {
        let rest = hashes.drop_last();
        insert_all_summarizes(p, rest);
        insert_all_never_lowers(Sketch::empty(p), rest);
        insert_summarizes(Sketch::empty(p).insert_all(rest), rest.to_set(), hashes.last());
        assert(rest.push(hashes.last()) =~= hashes);
        assert(hashes.to_set() =~= rest.to_set().insert(hashes.last()));
    }
}

/// Merging in the sketch of some hashes is the same as inserting them.
pub proof fn merge_is_inserting(s: Sketch, hashes: Seq<u64>)
    requires
        s.valid(),
    ensures
        s.merge(Sketch::empty(s.precision).insert_all(hashes)) == s.insert_all(hashes),
    decreases hashes.len(),
{
    let none = Sketch::empty(s.precision);
    if hashes.len() == 0 {
        merge_with_empty(s);
    } else {
        let rest = hashes.drop_last();
        merge_is_inserting(s, rest);
        insert_all_never_lowers(none, rest);
        insert_then_merge(s, none.insert_all(rest), hashes.last());
    }
}

/// Merging two sketches is the same as having inserted everything into one.
pub proof fn merge_is_inserting_both(p: u8, xs: Seq<u64>, ys: Seq<u64>)
    requires
        MIN_PRECISION <= p <= MAX_PRECISION,
    ensures
        Sketch::empty(p).insert_all(xs).merge(Sketch::empty(p).insert_all(ys)) == Sketch::empty(
            p,
        ).insert_all(xs + ys),
{
    insert_all_never_lowers(Sketch::empty(p), xs);
    merge_is_inserting(Sketch::empty(p).insert_all(xs), ys);
    insert_all_of_concatenation(Sketch::empty(p), xs, ys);
}

/// Streams with the same distinct hashes have the same effect on a sketch,
/// whatever their order and however often each hash comes.
pub proof fn only_distinct_hashes_count(s: Sketch, xs: Seq<u64>, ys: Seq<u64>)
    requires
        s.valid(),
        xs.to_set() == ys.to_set(),
    ensures
        s.insert_all(xs) == s.insert_all(ys),
{
    let none = Sketch::empty(s.precision);
    insert_all_summarizes(s.precision, xs);
    insert_all_summarizes(s.precision, ys);
    insert_all_never_lowers(none, xs);
    insert_all_never_lowers(none, ys);
    sketch_is_determined(none.insert_all(xs), none.insert_all(ys), xs.to_set());
    merge_is_inserting(s, xs);
    merge_is_inserting(s, ys);
}

/// A sketch is not empty once an item was inserted.
pub proof fn item_makes_not_empty<T: Hash + ?Sized>(s: Sketch, item: &T, after: Sketch)
    requires
        s.valid(),
        s.inserts(item, after),
    ensures
        !after.is_empty(),
{
    let h = choose|h: u64| #[trigger] hashes_to(item, h) && after == s.insert(h);
    insert_is_not_empty(s, h);
}

/// Inserting an item into the sketch of a set of hashes gives the sketch of the
/// set with a hash of the item in it.
pub proof fn item_joins_summary<T: Hash + ?Sized>(
    s: Sketch,
    hashes: Set<u64>,
    item: &T,
    after: Sketch,
)
    requires
        s.valid(),
        s.summarizes(hashes),
        s.inserts(item, after),
    ensures
        exists|h: u64| #[trigger] hashes_to(item, h) && after.summarizes(hashes.insert(h)),
{
    let h = choose|h: u64| #[trigger] hashes_to(item, h) && after == s.insert(h);
    insert_summarizes(s, hashes, h);
}

/// Once an item with a stable hash was inserted, inserting it again changes
/// nothing, whatever was inserted in between.
pub proof fn reinserting_item_changes_nothing<T: Hash + ?Sized>(
    s: Sketch,
    item: &T,
    first: Sketch,
    between: Seq<u64>,
    again: Sketch,
)
    requires
        s.valid(),
        hash_is_stable(item),
        s.inserts(item, first),
        first.insert_all(between).inserts(item, again),
    ensures
        again == first.insert_all(between),
{
    let h1 = choose|h: u64| #[trigger] hashes_to(item, h) && first == s.insert(h);
    let h2 = choose|h: u64| #[trigger]
        hashes_to(item, h) && again == first.insert_all(between).insert(h);
    assert(h1 == h2);
    insert_keeps_valid(s, h1);
    insert_all_never_lowers(first, between);
    assert(first.registers[first.bucket(h1)] <= first.insert_all(between).registers[first.bucket(
        h1,
    )]);
}

/// Inserting an item with a stable hash that the sketch covers changes nothing,
/// whether the hash came in by an insertion or by a merge.
pub proof fn known_item_changes_nothing<T: Hash + ?Sized>(
    s: Sketch,
    item: &T,
    hash: u64,
    again: Sketch,
)
    requires
        hash_is_stable(item),
        hashes_to(item, hash),
        s.covers(hash),
        s.inserts(item, again),
    ensures
        again == s,
{
    let h = choose|h: u64| #[trigger] hashes_to(item, h) && again == s.insert(h);
    assert(h == hash);
}

/// Whether `hashes` holds a hash of each of `items`, in order.
pub open spec fn hashes_of<T: Hash + ?Sized>(items: Seq<&T>, hashes: Seq<u64>) -> bool {
    &&& hashes.len() == items.len()
    &&& forall|i: int|
        0 <= i < items.len() ==> #[trigger] hashes_to(items[i], #[trigger] hashes[i])
}

/// Whether every one of `items` has a stable hash.
pub open spec fn hashes_are_stable<T: Hash + ?Sized>(items: Seq<&T>) -> bool {
    forall|i: int| 0 <= i < items.len() ==> hash_is_stable(#[trigger] items[i])
}

/// Items with stable hashes have one sequence of hashes.
proof fn lemma_stable_hashes<T: Hash + ?Sized>(items: Seq<&T>, first: Seq<u64>, again: Seq<u64>)
    requires
        hashes_are_stable(items),
        hashes_of(items, first),
        hashes_of(items, again),
    ensures
        first == again,
{
    assert forall|i: int| 0 <= i < items.len() implies first[i] == again[i] by {
        assert(hash_is_stable(items[i]));
        assert(hashes_to(items[i], first[i]));
        assert(hashes_to(items[i], again[i]));
    }
    assert(first =~= again);
}

/// Inserting all of some items with stable hashes a second time changes
/// nothing.
pub proof fn reinserting_items_changes_nothing<T: Hash + ?Sized>(
    s: Sketch,
    items: Seq<&T>,
    first: Seq<u64>,
    again: Seq<u64>,
)
    requires
        s.valid(),
        hashes_are_stable(items),
        hashes_of(items, first),
        hashes_of(items, again),
    ensures
        s.insert_all(first).insert_all(again) == s.insert_all(first),
{
    lemma_stable_hashes(items, first, again);
    reinserting_changes_nothing(s, first);
}

/// Every hash of some items is among the hashes of others with stable hashes
/// that hold the same items.
proof fn lemma_same_items_same_hashes<'a, T: Hash + ?Sized>(
    xs: Seq<&'a T>,
    ys: Seq<&'a T>,
    of_xs: Seq<u64>,
    of_ys: Seq<u64>,
    hash: u64,
)
    requires
        hashes_are_stable(xs) || hashes_are_stable(ys),
        hashes_of(xs, of_xs),
        hashes_of(ys, of_ys),
        xs.to_set() == ys.to_set(),
        of_xs.contains(hash),
    ensures
        of_ys.contains(hash),
{
    let i = choose|i: int| 0 <= i < of_xs.len() && of_xs[i] == hash;
    assert(xs.to_set().contains(xs[i]));
    assert(ys.to_set().contains(xs[i]));
    let j = choose|j: int| 0 <= j < ys.len() && ys[j] == xs[i];
    assert(hash_is_stable(xs[i]) || hash_is_stable(ys[j]));
    assert(hashes_to(xs[i], of_xs[i]));
    assert(hashes_to(ys[j], of_ys[j]));
    assert(of_ys[j] == hash);
}

/// Streams with the same distinct items, all with stable hashes, have the same
/// effect on a sketch, whatever their order and however often each item comes.
pub proof fn only_distinct_items_count<'a, T: Hash + ?Sized>(
    s: Sketch,
    xs: Seq<&'a T>,
    ys: Seq<&'a T>,
    of_xs: Seq<u64>,
    of_ys: Seq<u64>,
)
    requires
        s.valid(),
        hashes_are_stable(xs),
        hashes_of(xs, of_xs),
        hashes_of(ys, of_ys),
        xs.to_set() == ys.to_set(),
    ensures
        s.insert_all(of_xs) == s.insert_all(of_ys),
{
    assert forall|h: u64| of_xs.contains(h) implies of_ys.contains(h) by {
        lemma_same_items_same_hashes(xs, ys, of_xs, of_ys, h);
    }
    assert forall|h: u64| of_ys.contains(h) implies of_xs.contains(h) by {
        lemma_same_items_same_hashes(ys, xs, of_ys, of_xs, h);
    }
    assert(of_xs.to_set() =~= of_ys.to_set());
    only_distinct_hashes_count(s, of_xs, of_ys);
}

/// Merging the sketches of two groups of items gives a sketch that inserting
/// the items of both into one can lead to, stable hashes or not.
pub proof fn merge_is_an_insertion_of_both_items<'a, T: Hash + ?Sized>(
    p: u8,
    xs: Seq<&'a T>,
    ys: Seq<&'a T>,
    of_xs: Seq<u64>,
    of_ys: Seq<u64>,
)
    requires
        MIN_PRECISION <= p <= MAX_PRECISION,
        hashes_of(xs, of_xs),
        hashes_of(ys, of_ys),
    ensures
        hashes_of(xs + ys, of_xs + of_ys),
        Sketch::empty(p).insert_all(of_xs).merge(Sketch::empty(p).insert_all(of_ys))
            == Sketch::empty(p).insert_all(of_xs + of_ys),
{
    assert forall|i: int| 0 <= i < (xs + ys).len() implies #[trigger] hashes_to(
        (xs + ys)[i],
        #[trigger] (of_xs + of_ys)[i],
    ) by {
        if i < xs.len() {
            assert(hashes_to(xs[i], of_xs[i]));
        } else {
            let j = i - xs.len();
            assert(hashes_to(ys[j], of_ys[j]));
        }
    }
    merge_is_inserting_both(p, of_xs, of_ys);
}

/// Merging the sketches of two groups of items with stable hashes gives the
/// sketch into which the items of both were inserted.
pub proof fn merge_is_inserting_both_items<'a, T: Hash + ?Sized>(
    p: u8,
    xs: Seq<&'a T>,
    ys: Seq<&'a T>,
    of_xs: Seq<u64>,
    of_ys: Seq<u64>,
    of_both: Seq<u64>,
)
    requires
        MIN_PRECISION <= p <= MAX_PRECISION,
        hashes_are_stable(xs),
        hashes_are_stable(ys),
        hashes_of(xs, of_xs),
        hashes_of(ys, of_ys),
        hashes_of(xs + ys, of_both),
    ensures
        Sketch::empty(p).insert_all(of_xs).merge(Sketch::empty(p).insert_all(of_ys))
            == Sketch::empty(p).insert_all(of_both),
{
    merge_is_an_insertion_of_both_items(p, xs, ys, of_xs, of_ys);
    assert forall|i: int| 0 <= i < (xs + ys).len() implies hash_is_stable(
        #[trigger] (xs + ys)[i],
    ) by {
        if i < xs.len() {
            assert(hash_is_stable(xs[i]));
        } else {
            assert(hash_is_stable(ys[i - xs.len()]));
        }
    }
    lemma_stable_hashes(xs + ys, of_xs + of_ys, of_both);
}

/// The rank of a hash is the 1-based position of the leftmost 1-bit after its
/// first `p` bits: every bit before that position is 0, the bit there is 1,
/// and the rank is `64 - p + 1` when there is no such bit.
pub proof fn rank_is_leftmost_one(p: u8, hash: u64)
    requires
        p < 64,
    ensures
        1 <= rank(p, hash) <= 65 - p,
        forall|k: nat|
            1 <= k < rank(p, hash) ==> !#[trigger] hash_bit(hash, (p + k - 1) as nat),
        rank(p, hash) <= 64 - p ==> hash_bit(hash, (p + rank(p, hash) - 1) as nat),
{
    lemma_first_one_found(hash, p as nat);
}

/// The rank of a hash tells how large its last `64 - p` bits are as a number:
/// rank `r` means between `2^(64 - p - r)` and twice that, so `2^(64 - p - r)`
/// of the `2^(64 - p)` numbers have rank `r`, one in `2^r`; the rank past the
/// last position means 0.
pub proof fn rank_measures_rest(p: u8, hash: u64)
    requires
        p < 64,
    ensures
        ({
            let width = (64 - p) as nat;
            let rest = hash as nat % pow2(width);
            let r = rank(p, hash);
            if r <= width {
                pow2((width - r) as nat) <= rest < pow2((width - r + 1) as nat)
            } else {
                r == width + 1 && rest == 0
            }
        }),
{
    let at = first_one_from(hash, p as nat);
    lemma_first_one_found(hash, p as nat);
    lemma_rest_without_zeros(hash, p as nat, at);
    if at < 64 {
        lemma_rest_split(hash, at);
        vstd::arithmetic::power2::lemma_pow2_pos((64 - at) as nat);
    } else {
        assert(pow2(0) == 1) by {
            vstd::arithmetic::power2::lemma2_to64();
        }
    }
}

/// The bits from `i` on, as a number, are bit `i` and the bits after it.
proof fn lemma_rest_split(hash: u64, i: nat)
    requires
        i < 64,
    ensures
        hash_bit(hash, i) ==> hash as nat % pow2((64 - i) as nat) == hash as nat % pow2(
            (63 - i) as nat,
        ) + pow2((63 - i) as nat),
        !hash_bit(hash, i) ==> hash as nat % pow2((64 - i) as nat) == hash as nat % pow2(
            (63 - i) as nat,
        ),
{
    let k = (63 - i) as nat;
    let unit = pow2(k);
    vstd::arithmetic::power2::lemma_pow2_pos(k);
    vstd::arithmetic::power2::lemma_pow2_unfold((64 - i) as nat);
    vstd::arithmetic::div_mod::lemma_mod_breakdown(hash as int, unit as int, 2);
    assert(unit * 2 == pow2((64 - i) as nat));
    let bit = (hash as nat / unit) % 2;
    if bit == 1 {
        assert(unit * bit == unit) by (nonlinear_arith)
            requires
                bit == 1,
        ;
    } else {
        assert(unit * bit == 0) by (nonlinear_arith)
            requires
                bit == 0,
        ;
    }
}

/// Leading 0-bits do not change the number.
proof fn lemma_rest_without_zeros(hash: u64, from: nat, at: nat)
    requires
        from <= at <= 64,
        forall|i: nat| from <= i < at ==> !hash_bit(hash, i),
    ensures
        hash as nat % pow2((64 - from) as nat) == hash as nat % pow2((64 - at) as nat),
    decreases at - from,
{
    if from < at {
        lemma_rest_split(hash, from);
        assert((64 - (from + 1)) as nat == (63 - from) as nat);
        lemma_rest_without_zeros(hash, from + 1, at);
    }
}

/// All registers count as zero exactly when the sketch is empty.
pub proof fn empty_means_all_zero(s: Sketch)
    ensures
        s.zero_count() <= s.registers.len(),
        s.is_empty() <==> s.zero_count() == s.registers.len(),
{
    lemma_zero_count(s.registers);
}

/// The zeros in a sequence are at most all of it, and all of it only if nothing
/// else is there.
proof fn lemma_zero_count(registers: Seq<u8>)
    ensures
        registers.to_multiset().count(0) <= registers.len(),
        registers.to_multiset().count(0) == registers.len() <==> forall|i: int|
            0 <= i < registers.len() ==> #[trigger] registers[i] == 0,
    decreases registers.len(),
{
    registers.to_multiset_ensures();
    if registers.len() > 0 {
        let rest = registers.drop_last();
        lemma_zero_count(rest);
        vstd::seq_lib::to_multiset_build(rest, registers.last());
        assert(rest.push(registers.last()) =~= registers);
        assert(forall|i: int| 0 <= i < rest.len() ==> rest[i] == registers[i]);
        if forall|i: int| 0 <= i < rest.len() ==> #[trigger] rest[i] == 0 {
        } else {
            let i = choose|i: int| 0 <= i < rest.len() && #[trigger] rest[i] != 0;
            assert(registers[i] != 0);
        }
    }
}

}
