use vstd::prelude::*;
use crate::keyset::KeySet;
use crate::keyset::lemma_push_to_set;
use crate::kvmap::KvMap;
use crate::store::Store;
use crate::store::StoreError;

verus! {

/// A lazily populated, write-back cache of records kept by a [`Store`].
///
/// Three pieces of state:
///  - `base_path`: the directory root under which a backing store keeps one
///    file per key (see [`DiskCache::record_path`]);
///  - `cache`: the in-memory view of every record queried or set so far;
///  - `dirty`: the keys whose in-memory state has not yet been reconciled
///    with the store — present in `cache` means "write me on persist",
///    absent means "delete me on persist".
///
/// `set` and `remove` touch only memory and mark the key dirty; `get`
/// falls back to the store once and caches what it finds; `persist`
/// reconciles every dirty key against the store.
///
/// This type offers the same operation set as [`crate::table::Table`] but
/// does not implement that trait: its lookups need the store at hand, and
/// no single table mapping describes its behaviour exactly — `set` and
/// `remove` return what memory held, while `contains_key` also sees records
/// never loaded. The program around the library pairs a `DiskCache` with
/// its store to serve the same call sites.
pub struct DiskCache<T> {
    base_path: String,
    cache: KvMap<T>,
    dirty: KeySet,
}

/// The records a store holds after the dirty keys are reconciled against a
/// cache: a dirty key is present exactly if the cache holds it, and then
/// denotes the cached value; every other record is untouched.
pub open spec fn reconcile<T: View>(
    files: Map<Seq<char>, T::V>,
    cache: Map<Seq<char>, T>,
    dirty: Set<Seq<char>>,
) -> Map<Seq<char>, T::V> {
    Map::new(
        |n: Seq<char>|
            if dirty.contains(n) {
                cache.contains_key(n)
            } else {
                files.contains_key(n)
            },
        |n: Seq<char>|
            if dirty.contains(n) {
                cache[n]@
            } else {
                files[n]
            },
    )
}

/// The names that have a record after the dirty keys are reconciled: a
/// dirty key has one exactly if the cache holds it, every other name is as
/// it was.
pub open spec fn reconcile_extant<T>(
    extant: Set<Seq<char>>,
    cache: Map<Seq<char>, T>,
    dirty: Set<Seq<char>>,
) -> Set<Seq<char>> {
    Set::new(
        |n: Seq<char>|
            if dirty.contains(n) {
                cache.contains_key(n)
            } else {
                extant.contains(n)
            },
    )
}

impl<T> DiskCache<T> {
    /// The in-memory view: everything set or loaded so far.
    pub closed spec fn cache_map(&self) -> Map<Seq<char>, T> {
        self.cache@
    }

    /// The keys awaiting reconciliation with the store.
    pub closed spec fn dirty_keys(&self) -> Set<Seq<char>> {
        self.dirty.key_set()
    }

    /// The configured directory root.
    pub closed spec fn base(&self) -> Seq<char> {
        self.base_path@
    }

    /// Internal well-formedness, established by `new` and kept by every
    /// operation.
    pub closed spec fn inv(&self) -> bool {
        self.cache.wf() && self.dirty.wf()
    }

    /// Creates a cache over `base_path` that has seen nothing yet: both the
    /// in-memory view and the dirty set start empty.
    pub fn new(base_path: String) -> (r: Self)
        ensures
            r.inv(),
            r.cache_map() == Map::<Seq<char>, T>::empty(),
            r.dirty_keys() == Set::<Seq<char>>::empty(),
            r.base() == base_path@,
    {
        DiskCache { base_path, cache: KvMap::new(), dirty: KeySet::new() }
    }

    /// Inserts or overwrites in memory and marks the key dirty — even if the
    /// value is unchanged, since no comparison is made. Returns the value the
    /// cache previously held for the key; a record that exists only in the
    /// store and was never loaded yields `None`, since the store is not
    /// consulted.
    pub fn set(&mut self, k: String, v: T) -> (prev: Option<T>)
        requires
            old(self).inv(),
        ensures
            final(self).inv(),
            final(self).cache_map() == old(self).cache_map().insert(k@, v),
            final(self).dirty_keys() == old(self).dirty_keys().insert(k@),
            final(self).base() == old(self).base(),
            prev == (if old(self).cache_map().contains_key(k@) {
                Some(old(self).cache_map()[k@])
            } else {
                None::<T>
            }),
    {
        self.dirty.insert(k.clone());
        self.cache.insert(k, v)
    }

    /// Removes the key from memory and marks it dirty whether or not it was
    /// present, so that `persist` deletes its record. Returns the value the
    /// cache held; a record never loaded yields `None` even though its file
    /// remains until reconciled.
    pub fn remove(&mut self, k: &String) -> (prev: Option<T>)
        requires
            old(self).inv(),
        ensures
            final(self).inv(),
            final(self).cache_map() == old(self).cache_map().remove(k@),
            final(self).dirty_keys() == old(self).dirty_keys().insert(k@),
            final(self).base() == old(self).base(),
            prev == (if old(self).cache_map().contains_key(k@) {
                Some(old(self).cache_map()[k@])
            } else {
                None::<T>
            }),
    {
        self.dirty.insert(k.clone());
        self.cache.remove(k)
    }

    /// How many records the in-memory view holds.
    pub fn cached_count(&self) -> (n: usize)
        requires
            self.inv(),
        ensures
            n == self.cache_map().dom().len(),
    {
        self.cache.len()
    }

    /// The configured directory root.
    pub fn base_path(&self) -> (r: &String)
        ensures
            r@ == self.base(),
    {
        &self.base_path
    }

    /// Where the record for key `k` lives: the file named `k` directly under
    /// the base path.
    pub fn record_path(&self, k: &String) -> (r: String)
        ensures
            r@ == self.base() + "/"@ + k@,
    {
        let mut r = self.base_path.clone();
        r.append("/");
        r.append(k.as_str());
        r
    }
}

impl<T: View> DiskCache<T> {
    /// The current value for `k`. Memory answers if it can; otherwise the
    /// store is read once and a found record is cached — without marking the
    /// key dirty, since loading mutates nothing. A key that is neither cached
    /// nor readable from the store is reported absent, and nothing is cached,
    /// so a later lookup asks the store afresh.
    pub fn get<S: Store<T>>(&mut self, k: &String, store: &S) -> (r: Option<&T>)
        requires
            old(self).inv(),
            store.inv(),
        ensures
            final(self).inv(),
            final(self).dirty_keys() == old(self).dirty_keys(),
            final(self).base() == old(self).base(),
            old(self).cache_map().contains_key(k@) ==> {
                &&& final(self).cache_map() == old(self).cache_map()
                &&& r matches Some(v) && *v == old(self).cache_map()[k@]
            },
            !old(self).cache_map().contains_key(k@) && store.files().contains_key(k@) ==> {
                &&& r matches Some(v) && v@ == store.files()[k@]
                    && final(self).cache_map() == old(self).cache_map().insert(k@, *v)
            },
            !old(self).cache_map().contains_key(k@) && !store.files().contains_key(k@) ==> {
                &&& final(self).cache_map() == old(self).cache_map()
                &&& r is None
            },
    {
        if self.cache.contains_key(k) {
            self.cache.get(k)
        } else {
            match store.read(k) {
                Some(v) => {
                    let _ = self.cache.insert(k.clone(), v);
                    self.cache.get(k)
                },
                None => None,
            }
        }
    }

    /// Whether `k` exists: cached in memory, or present as a record of the
    /// store — which is probed for existence only, never read or decoded.
    pub fn contains_key<S: Store<T>>(&self, k: &String, store: &S) -> (r: bool)
        requires
            self.inv(),
            store.inv(),
        ensures
            r == (self.cache_map().contains_key(k@) || store.extant().contains(k@)),
    {
        self.cache.contains_key(k) || store.has_record(k)
    }

    /// Reconciles every dirty key against the store: a dirty key held in
    /// memory has its value written (new and updated records alike), one
    /// absent from memory has its record removed if it exists (removing an
    /// already absent record is a no-op, not an error).
    ///
    /// On success the dirty set is drained and the store holds exactly
    /// [`reconcile`] of its previous records. On the first store error the
    /// remaining work is abandoned and the whole dirty set is kept for a
    /// future retry; the store then holds the reconciliation of some subset
    /// of the dirty keys. The in-memory view never changes.
    ///
    /// Success is owed wherever no store call can refuse it: with nothing
    /// dirty the call must succeed (no store operation is made), and against
    /// a store that never fails — the in-memory model is one — it must
    /// succeed always.
    #[verifier::loop_isolation(false)]
    pub fn persist<S: Store<T>>(&mut self, store: &mut S) -> (r: Result<(), StoreError>)
        requires
            old(self).inv(),
            old(store).inv(),
        ensures
            final(self).inv(),
            final(store).inv(),
            final(self).cache_map() == old(self).cache_map(),
            final(self).base() == old(self).base(),
            final(store).infallible() == old(store).infallible(),
            old(self).dirty_keys() == Set::<Seq<char>>::empty() ==> r is Ok,
            old(store).infallible() ==> r is Ok,
            r is Ok ==> {
                &&& final(self).dirty_keys() == Set::<Seq<char>>::empty()
                &&& final(store).files() == reconcile::<T>(
                    old(store).files(),
                    old(self).cache_map(),
                    old(self).dirty_keys(),
                )
                &&& final(store).extant() == reconcile_extant::<T>(
                    old(store).extant(),
                    old(self).cache_map(),
                    old(self).dirty_keys(),
                )
            },
            r is Err ==> {
                &&& final(self).dirty_keys() == old(self).dirty_keys()
                &&& exists|done: Set<Seq<char>>|
                    #[trigger] done.subset_of(old(self).dirty_keys())
                        && final(store).files() == reconcile::<T>(
                        old(store).files(),
                        old(self).cache_map(),
                        done,
                    ) && final(store).extant() == reconcile_extant::<T>(
                        old(store).extant(),
                        old(self).cache_map(),
                        done,
                    )
            },
    {
        let ghost files0 = store.files();
        let ghost extant0 = store.extant();
        let ghost all = self.dirty.keys();
        proof {
            assert(reconcile::<T>(files0, self.cache_map(), all.take(0).to_set()) =~= files0);
            assert(reconcile_extant::<T>(extant0, self.cache_map(), all.take(0).to_set())
                =~= extant0);
        }
        let mut i: usize = 0;
        while i < self.dirty.len()
            invariant
                i <= all.len(),
                store.inv(),
                store.infallible() == old(store).infallible(),
                store.files() == reconcile::<T>(files0, self.cache_map(), all.take(i as int).to_set()),
                store.extant() == reconcile_extant::<T>(
                    extant0,
                    self.cache_map(),
                    all.take(i as int).to_set(),
                ),
            decreases all.len() - i,
        {
            let ghost done = all.take(i as int).to_set();
            let k = self.dirty.key_at(i);
            let step = match self.cache.get(k) {
                Some(v) => store.put(k, v),
                None => store.remove_record(k),
            };
            match step {
                Ok(()) => {
                    proof {
                        assert(all.take(i + 1) =~= all.take(i as int).push(all[i as int]));
                        lemma_push_to_set(all.take(i as int), all[i as int]);
                        assert(store.files() =~= reconcile::<T>(
                            files0,
                            self.cache_map(),
                            all.take(i + 1).to_set(),
                        ));
                        assert(store.extant() =~= reconcile_extant::<T>(
                            extant0,
                            self.cache_map(),
                            all.take(i + 1).to_set(),
                        ));
                    }
                    i = i + 1;
                },
                Err(e) => {
                    proof {
                        // The dirty set is not empty: it holds the key that
                        // just failed.
                        assert(all.contains(all[i as int]));
                        assert(old(self).dirty_keys().contains(all[i as int]));
                        assert forall|n: Seq<char>| done.contains(n) implies
                            old(self).dirty_keys().contains(n) by {
                            let j = choose|j: int|
                                0 <= j < all.take(i as int).len() && all.take(i as int)[j] == n;
                            assert(all[j] == n);
                        }
                        assert(done.subset_of(old(self).dirty_keys())
                            && store.files() == reconcile::<T>(
                            files0,
                            old(self).cache_map(),
                            done,
                        ) && store.extant() == reconcile_extant::<T>(
                            extant0,
                            old(self).cache_map(),
                            done,
                        ));
                    }
                    return Err(e);
                },
            }
        }
        proof {
            assert(all.take(all.len() as int) =~= all);
        }
        self.dirty.clear();
        Ok(())
    }
}

} // verus!
