use vstd::prelude::*;
use crate::kvmap::KvMap;

verus! {

/// Why a record store operation failed: an input/output fault, or a value
/// that could not be encoded.
#[derive(Clone, Copy, Debug, PartialEq, Eq)]
pub enum StoreError {
    Io,
    Encode,
}

/// A value that can hand out an independent copy of itself denoting the
/// same abstract value.
pub trait Dup: View + Sized {
    /// An independent copy with the same view.
    fn dup(&self) -> (r: Self)
        ensures
            r@ == self@,
    ;
}

impl Dup for String {
    fn dup(&self) -> (r: Self) {
        self.clone()
    }
}

/// A durable record store: one record per name, holding one value.
///
/// This is the collaborator a [`crate::disk_cache::DiskCache`] reconciles
/// against. Its abstract state is two views: [`Store::extant`], the names
/// that have a record at all (what an existence probe sees), and
/// [`Store::files`], the mapping from names to the values their records
/// denote (what a read can recover). A record that exists but no longer
/// decodes to a value is in `extant` and not in `files`; writes put a name
/// in both, removal takes it out of both.
///
/// Each operation says exactly how it reads or changes these views,
/// whatever else (buffering, encoding) an implementation does.
pub trait Store<T: View>: Sized {
    /// The values the store's readable records denote, by name. The default
    /// body is a placeholder for implementations outside the verified world;
    /// every implementation verified here says what its records are.
    open spec fn files(&self) -> Map<Seq<char>, T::V> {
        Map::empty()
    }

    /// The names that have a record, readable or not. The default body is a
    /// placeholder, as for `files`.
    open spec fn extant(&self) -> Set<Seq<char>> {
        Set::empty()
    }

    /// Whether this store's operations never fail. No promise by default;
    /// the in-memory model overrides it, and every operation then owes
    /// success.
    open spec fn infallible(&self) -> bool {
        false
    }

    /// Internal well-formedness, established by constructors and kept by
    /// every operation.
    open spec fn inv(&self) -> bool {
        true
    }

    /// Writes (or overwrites) the record `name` so that it denotes `v`.
    /// On failure the store is unchanged.
    fn put(&mut self, name: &String, v: &T) -> (r: Result<(), StoreError>)
        requires
            old(self).inv(),
        ensures
            final(self).inv(),
            final(self).infallible() == old(self).infallible(),
            old(self).infallible() ==> r is Ok,
            r is Ok ==> final(self).files() == old(self).files().insert(name@, v@)
                && final(self).extant() == old(self).extant().insert(name@),
            r is Err ==> final(self).files() == old(self).files()
                && final(self).extant() == old(self).extant(),
    ;

    /// Ensures no record named `name` exists; removing an absent record is
    /// not an error. On failure the store is unchanged.
    fn remove_record(&mut self, name: &String) -> (r: Result<(), StoreError>)
        requires
            old(self).inv(),
        ensures
            final(self).inv(),
            final(self).infallible() == old(self).infallible(),
            old(self).infallible() ==> r is Ok,
            r is Ok ==> final(self).files() == old(self).files().remove(name@)
                && final(self).extant() == old(self).extant().remove(name@),
            r is Err ==> final(self).files() == old(self).files()
                && final(self).extant() == old(self).extant(),
    ;

    /// Reads the record `name`, yielding a value denoting what it holds.
    /// `None` means no readable record: there is none at all, or — for a
    /// backing store with real records — one whose bytes no longer decode.
    fn read(&self, name: &String) -> (r: Option<T>)
        requires
            self.inv(),
        ensures
            match r {
                Some(v) => self.files().contains_key(name@) && self.extant().contains(name@)
                    && v@ == self.files()[name@],
                None => !self.files().contains_key(name@),
            },
    ;

    /// Whether a record named `name` exists — probed by presence alone,
    /// never by reading or decoding it.
    fn has_record(&self, name: &String) -> (r: bool)
        requires
            self.inv(),
        ensures
            r == self.extant().contains(name@),
    ;
}

/// A record store held in memory: the reference model of [`Store`].
///
/// Every `Store` obligation is proved for it, so whatever is shown of a
/// cache reconciling against an arbitrary store holds of this one; it also
/// lets a whole persist-and-reload cycle run without a real disk. All its
/// records are readable (`extant` and the domain of `files` coincide), and
/// it is infallible: its operations promise success.
pub struct MemStore<T> {
    records: KvMap<T>,
}

impl<T: Dup> MemStore<T> {
    /// Creates a store with no records.
    pub fn new() -> (r: Self)
        ensures
            r.inv(),
            r.infallible(),
            r.files() == Map::<Seq<char>, T::V>::empty(),
            r.extant() == Set::<Seq<char>>::empty(),
    {
        let r = MemStore { records: KvMap::new() };
        proof {
            assert(r.files() =~= Map::<Seq<char>, T::V>::empty());
            assert(r.extant() =~= Set::<Seq<char>>::empty());
        }
        r
    }
}

impl<T: Dup> Store<T> for MemStore<T> {
    closed spec fn files(&self) -> Map<Seq<char>, T::V> {
        Map::new(
            |n: Seq<char>| self.records@.contains_key(n),
            |n: Seq<char>| self.records@[n]@,
        )
    }

    closed spec fn extant(&self) -> Set<Seq<char>> {
        Set::new(|n: Seq<char>| self.records@.contains_key(n))
    }

    closed spec fn infallible(&self) -> bool {
        true
    }

    closed spec fn inv(&self) -> bool {
        self.records.wf()
    }

    fn put(&mut self, name: &String, v: &T) -> (r: Result<(), StoreError>) {
        let _ = self.records.insert(name.clone(), v.dup());
        proof {
            assert(final(self).files() =~= old(self).files().insert(name@, v@));
            assert(final(self).extant() =~= old(self).extant().insert(name@));
        }
        Ok(())
    }

    fn remove_record(&mut self, name: &String) -> (r: Result<(), StoreError>) {
        let _ = self.records.remove(name);
        proof {
            assert(final(self).files() =~= old(self).files().remove(name@));
            assert(final(self).extant() =~= old(self).extant().remove(name@));
        }
        Ok(())
    }

    fn read(&self, name: &String) -> (r: Option<T>) {
        match self.records.get(name) {
            Some(v) => Some(v.dup()),
            None => None,
        }
    }

    fn has_record(&self, name: &String) -> (r: bool) {
        self.records.contains_key(name)
    }
}

} // verus!
