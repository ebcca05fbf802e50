use vstd::prelude::*;
use crate::kvmap::KvMap;

verus! {

/// The uniform key/value contract that every table implementation satisfies.
///
/// A table denotes a mapping from string keys to values, given by
/// [`Table::contents`]; each operation states exactly how it reads or changes
/// that mapping. `get` takes `&mut self` so that an implementation may
/// repopulate itself from a backing store, but it must not change the mapping
/// a caller sees.
pub trait Table<T>: Sized {
    /// The mapping this table currently represents.
    spec fn contents(&self) -> Map<Seq<char>, T>;

    /// Internal well-formedness, established by constructors and kept by
    /// every operation.
    spec fn inv(&self) -> bool;

    /// Inserts or overwrites; returns the value previously in the table's
    /// current view, if any.
    fn set(&mut self, k: String, v: T) -> (prev: Option<T>)
        requires
            old(self).inv(),
        ensures
            final(self).inv(),
            final(self).contents() == old(self).contents().insert(k@, v),
            prev == (if old(self).contents().contains_key(k@) {
                Some(old(self).contents()[k@])
            } else {
                None::<T>
            }),
    ;

    /// The current value under `k`, if known.
    fn get(&mut self, k: &String) -> (r: Option<&T>)
        requires
            old(self).inv(),
        ensures
            final(self).inv(),
            final(self).contents() == old(self).contents(),
            match r {
                Some(v) => old(self).contents().contains_key(k@) && *v == old(self).contents()[k@],
                None => !old(self).contents().contains_key(k@),
            },
    ;

    /// Whether `k` exists, without requiring a full load.
    fn contains_key(&self, k: &String) -> (r: bool)
        requires
            self.inv(),
        ensures
            r == self.contents().contains_key(k@),
    ;

    /// Deletes `k` from the table's current view; returns the removed value
    /// if it was present.
    fn remove(&mut self, k: &String) -> (prev: Option<T>)
        requires
            old(self).inv(),
        ensures
            final(self).inv(),
            final(self).contents() == old(self).contents().remove(k@),
            prev == (if old(self).contents().contains_key(k@) {
                Some(old(self).contents()[k@])
            } else {
                None::<T>
            }),
    ;
}

/// A table held entirely in memory, with no persistence.
///
/// Suited to small tables whose contents can be recomputed at startup.
pub struct MemCache<T> {
    table: KvMap<T>,
}

impl<T> MemCache<T> {
    /// Creates an empty in-memory table.
    pub fn new() -> (r: Self)
        ensures
            r.inv(),
            r.contents() == Map::<Seq<char>, T>::empty(),
    {
        MemCache { table: KvMap::new() }
    }
}

impl<T> Table<T> for MemCache<T> {
    closed spec fn contents(&self) -> Map<Seq<char>, T> {
        self.table@
    }

    closed spec fn inv(&self) -> bool {
        self.table.wf()
    }

    fn set(&mut self, k: String, v: T) -> (prev: Option<T>) {
        self.table.insert(k, v)
    }

    fn get(&mut self, k: &String) -> (r: Option<&T>) {
        self.table.get(k)
    }

    fn contains_key(&self, k: &String) -> (r: bool) {
        self.table.contains_key(k)
    }

    fn remove(&mut self, k: &String) -> (prev: Option<T>) {
        self.table.remove(k)
    }
}

} // verus!
