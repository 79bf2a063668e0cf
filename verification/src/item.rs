//! From items to 64-bit hashes.

use std::collections::hash_map::DefaultHasher;
use std::hash::{Hash, Hasher};

use vstd::prelude::*;

verus! {

use vstd::std_specs::hash::DefaultHasherAdditionalSpecFns;

/// Feeds `item` to `hasher` and hands the hasher back. The call is
/// `std::hash::Hash::hash`.
///
/// Nothing is claimed of the result: what an item writes is up to the `Hash`
/// implementation of its type, which need not even write the same twice (and
/// which can panic, if it was written to). [`feeds`] speaks of the results
/// that this call can have.
#[verifier::external_body]
pub(crate) fn feed<T: Hash + ?Sized>(item: &T, hasher: DefaultHasher) -> (fed: DefaultHasher) {
    let mut hasher = hasher;
    item.hash(&mut hasher);
    hasher
}

/// Whether a hasher in the state `start` can be in the state `fed` once `item`
/// was fed to it.
pub closed spec fn feeds<T: Hash + ?Sized>(
    item: &T,
    start: DefaultHasher,
    fed: DefaultHasher,
) -> bool {
    call_ensures(feed::<T>, (item, start), fed)
}

/// Whether `hash` is a hash of `item`: one that a new `DefaultHasher` can
/// finish with once `item` was fed to it.
pub open spec fn hashes_to<T: Hash + ?Sized>(item: &T, hash: u64) -> bool {
    exists|start: DefaultHasher, fed: DefaultHasher|
        {
            &&& start@ == Seq::<Seq<u8>>::empty()
            &&& #[trigger] feeds(item, start, fed)
            &&& hash == DefaultHasher::spec_finish(fed@)
        }
}

/// Whether `item` always has the same hash.
pub open spec fn hash_is_stable<T: Hash + ?Sized>(item: &T) -> bool {
    forall|h1: u64, h2: u64| #[trigger]
        hashes_to(item, h1) && #[trigger] hashes_to(item, h2) ==> h1 == h2
}

/// To feed an item is to hash it into the hasher once, and nothing besides.
pub(crate) proof fn feeding_is_one_call<T: Hash + ?Sized>(
    item: &T,
    start: DefaultHasher,
    fed: DefaultHasher,
)
    ensures
        feeds(item, start, fed) <==> call_ensures(feed::<T>, (item, start), fed),
{
}

/// Whatever `finish` gives for a hasher that started with nothing written and
/// was fed `item`, all 64 bits of it, is a hash of `item`.
pub proof fn finished_hasher_gives_a_hash<T: Hash + ?Sized>(
    item: &T,
    start: DefaultHasher,
    fed: DefaultHasher,
)
    requires
        start@.len() == 0,
        feeds(item, start, fed),
    ensures
        hashes_to(item, DefaultHasher::spec_finish(fed@)),
{
    assert(start@ =~= Seq::<Seq<u8>>::empty());
}

/// Every hash of `item` comes from such a hasher: it is the very value that
/// `finish` gives, with no bit changed.
pub proof fn hash_comes_from_a_finished_hasher<T: Hash + ?Sized>(item: &T, hash: u64) -> (hashers: (
    DefaultHasher,
    DefaultHasher,
))
    requires
        hashes_to(item, hash),
    ensures
        hashers.0@.len() == 0,
        feeds(item, hashers.0, hashers.1),
        DefaultHasher::spec_finish(hashers.1@) == hash,
{
    choose|start: DefaultHasher, fed: DefaultHasher|
        {
            &&& start@ == Seq::<Seq<u8>>::empty()
            &&& #[trigger] feeds(item, start, fed)
            &&& hash == DefaultHasher::spec_finish(fed@)
        }
}

/// An item is stable exactly when no two hashers that started with nothing
/// written and were fed it can finish with different values.
pub proof fn stable_means_one_finished_value<T: Hash + ?Sized>(item: &T)
    ensures
        hash_is_stable(item) <==> forall|
            s1: DefaultHasher,
            f1: DefaultHasher,
            s2: DefaultHasher,
            f2: DefaultHasher,
        |
            s1@.len() == 0 && s2@.len() == 0 && #[trigger] feeds(item, s1, f1) && #[trigger] feeds(
                item,
                s2,
                f2,
            ) ==> DefaultHasher::spec_finish(f1@) == DefaultHasher::spec_finish(f2@),
{
    if hash_is_stable(item) {
        assert forall|s1: DefaultHasher, f1: DefaultHasher, s2: DefaultHasher, f2: DefaultHasher|
            s1@.len() == 0 && s2@.len() == 0 && #[trigger] feeds(item, s1, f1) && #[trigger] feeds(
                item,
                s2,
                f2,
            ) implies DefaultHasher::spec_finish(f1@) == DefaultHasher::spec_finish(f2@) by {
            finished_hasher_gives_a_hash(item, s1, f1);
            finished_hasher_gives_a_hash(item, s2, f2);
        }
    } else {
        let (h1, h2) = choose|h1: u64, h2: u64|
            !(#[trigger] hashes_to(item, h1) && #[trigger] hashes_to(item, h2) ==> h1 == h2);
        let a = hash_comes_from_a_finished_hasher(item, h1);
        let b = hash_comes_from_a_finished_hasher(item, h2);
        assert(feeds(item, a.0, a.1) && feeds(item, b.0, b.1));
    }
}

/// Hashes `item` with a new `DefaultHasher`.
pub(crate) fn hash_of<T: Hash + ?Sized>(item: &T) -> (hash: u64)
    ensures
        hashes_to(item, hash),
        exists|start: DefaultHasher, fed: DefaultHasher|
            start@.len() == 0 && #[trigger] call_ensures(feed::<T>, (item, start), fed)
                && DefaultHasher::spec_finish(fed@) == hash,
{
    let hasher = DefaultHasher::new();
    let feed_item = feed::<T>;
    let fed = feed_item(item, hasher);
    assert(feeds(item, hasher, fed));
    fed.finish()
}

}
