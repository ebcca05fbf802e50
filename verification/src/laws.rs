use vstd::prelude::*;
use crate::disk_cache::reconcile;
use crate::disk_cache::reconcile_extant;

verus! {

/// A cache that has seen nothing, over a store with no records at all,
/// reports no key as present and answers no lookup: `contains_key` consults
/// memory and the store's extant records, `get` consults memory and its
/// readable ones, and all are empty.
pub proof fn fresh_cache_sees_nothing<T: View>(
    cache: Map<Seq<char>, T>,
    files: Map<Seq<char>, T::V>,
    extant: Set<Seq<char>>,
    k: Seq<char>,
)
    requires
        cache == Map::<Seq<char>, T>::empty(),
        files == Map::<Seq<char>, T::V>::empty(),
        extant == Set::<Seq<char>>::empty(),
    ensures
        !(cache.contains_key(k) || extant.contains(k)),
        !cache.contains_key(k) && !files.contains_key(k),
{
}

/// After `set(k, v)` the in-memory view holds exactly `v` under `k`, so a
/// following `get(k)` is answered from memory with `v` itself — whatever the
/// store holds, and without the store being consulted.
pub proof fn set_then_get_returns_value<T: View>(cache: Map<Seq<char>, T>, k: Seq<char>, v: T)
    ensures
        cache.insert(k, v).contains_key(k),
        cache.insert(k, v)[k] == v,
{
}

/// `set(k, v)` then `remove(k)` gives back exactly `v`, and the key is gone
/// from memory afterwards; with no record for it in the store either, a
/// following `contains_key(k)` reports false.
pub proof fn set_then_remove_returns_value<T: View>(
    cache: Map<Seq<char>, T>,
    extant: Set<Seq<char>>,
    k: Seq<char>,
    v: T,
)
    requires
        !extant.contains(k),
    ensures
        cache.insert(k, v)[k] == v,
        !(cache.insert(k, v).remove(k).contains_key(k) || extant.contains(k)),
{
}

/// Removing a key the cache holds nothing for yields `None` — per the
/// contract of `remove` — and leaves the in-memory view as it was: removal
/// of an absent key is a no-op, not an error.
pub proof fn remove_untracked_is_harmless<T: View>(cache: Map<Seq<char>, T>, k: Seq<char>)
    requires
        !cache.contains_key(k),
    ensures
        cache.remove(k) == cache,
{
    assert(cache.remove(k) =~= cache);
}

/// The round trip through the store: after `set(k, v)` and a successful
/// `persist`, the store's record for `k` denotes `v`. A fresh cache over the
/// same store therefore answers `get(k)` with a value denoting `v`.
pub proof fn persist_round_trip<T: View>(
    files: Map<Seq<char>, T::V>,
    cache: Map<Seq<char>, T>,
    dirty: Set<Seq<char>>,
    k: Seq<char>,
    v: T,
)
    ensures
        reconcile::<T>(files, cache.insert(k, v), dirty.insert(k)).contains_key(k),
        reconcile::<T>(files, cache.insert(k, v), dirty.insert(k))[k] == v@,
{
}

/// Persisting a removal deletes the record: after `set(k, v)`, a successful
/// `persist`, `remove(k)`, and a second successful `persist`, the store no
/// longer holds a record for `k` — not a readable one, and not a file at
/// all. Against the in-memory model both persists are owed success by the
/// contract of `persist`.
pub proof fn persisted_removal_deletes_record<T: View>(
    files: Map<Seq<char>, T::V>,
    extant: Set<Seq<char>>,
    cache: Map<Seq<char>, T>,
    dirty: Set<Seq<char>>,
    k: Seq<char>,
    v: T,
)
    ensures
        ({
            let cache1 = cache.insert(k, v);
            let files1 = reconcile::<T>(files, cache1, dirty.insert(k));
            let files2 = reconcile::<T>(
                files1,
                cache1.remove(k),
                Set::<Seq<char>>::empty().insert(k),
            );
            !files2.contains_key(k)
        }),
        ({
            let cache1 = cache.insert(k, v);
            let extant1 = reconcile_extant::<T>(extant, cache1, dirty.insert(k));
            let extant2 = reconcile_extant::<T>(
                extant1,
                cache1.remove(k),
                Set::<Seq<char>>::empty().insert(k),
            );
            !extant2.contains(k)
        }),
{
}

/// Persisting an overwrite updates the record: after `set(k, v1)`, a
/// successful `persist`, `set(k, v2)`, and a second successful `persist`,
/// the store's record for `k` denotes `v2`.
pub proof fn persisted_overwrite_updates_record<T: View>(
    files: Map<Seq<char>, T::V>,
    cache: Map<Seq<char>, T>,
    dirty: Set<Seq<char>>,
    k: Seq<char>,
    v1: T,
    v2: T,
)
    ensures
        ({
            let cache1 = cache.insert(k, v1);
            let files1 = reconcile::<T>(files, cache1, dirty.insert(k));
            let cache2 = cache1.insert(k, v2);
            let files2 = reconcile::<T>(files1, cache2, Set::<Seq<char>>::empty().insert(k));
            files2.contains_key(k) && files2[k] == v2@
        }),
{
}

/// Reconciliation touches only dirty records: one whose key is not dirty is
/// exactly what it was, present or absent. This is what the dirty set is
/// for — `persist` never rewrites or deletes a record nobody changed.
pub proof fn persist_leaves_clean_records_alone<T: View>(
    files: Map<Seq<char>, T::V>,
    extant: Set<Seq<char>>,
    cache: Map<Seq<char>, T>,
    dirty: Set<Seq<char>>,
    n: Seq<char>,
)
    requires
        !dirty.contains(n),
    ensures
        reconcile::<T>(files, cache, dirty).contains_key(n) == files.contains_key(n),
        files.contains_key(n) ==> reconcile::<T>(files, cache, dirty)[n] == files[n],
        reconcile_extant::<T>(extant, cache, dirty).contains(n) == extant.contains(n),
{
}

/// A readable record in the store that the cache has never seen:
/// `contains_key` reports it present; a first `get` reads a value `w`
/// denoting the record and caches it without marking the key dirty; a
/// second `get` is answered from memory with that same `w`, the store not
/// consulted again.
pub proof fn lazy_load_is_cached_once<T: View>(
    cache: Map<Seq<char>, T>,
    files: Map<Seq<char>, T::V>,
    extant: Set<Seq<char>>,
    k: Seq<char>,
    w: T,
)
    requires
        !cache.contains_key(k),
        files.contains_key(k),
        extant.contains(k),
        w@ == files[k],
    ensures
        cache.contains_key(k) || extant.contains(k),
        cache.insert(k, w).contains_key(k),
        cache.insert(k, w)[k] == w,
{
}

} // verus!
