use vstd::prelude::*;

verus! {

/// A set of string keys that remembers the order in which they arrived.
///
/// It is viewed two ways: as the sequence [`KeySet::keys`] (used to walk the
/// pending keys one by one) and as the set [`KeySet::key_set`] (used by the
/// cache contracts, for which order is irrelevant).
pub struct KeySet {
    items: Vec<String>,
}

pub(crate) proof fn lemma_push_to_set<A>(s: Seq<A>, x: A)
    ensures
        s.push(x).to_set() == s.to_set().insert(x),
{
    assert forall|y: A| s.push(x).to_set().contains(y) implies s.to_set().insert(x).contains(
        y,
    ) by {
        let i = choose|i: int| 0 <= i < s.push(x).len() && s.push(x)[i] == y;
        if i < s.len() {
            assert(s[i] == y);
        }
    }
    assert forall|y: A| s.to_set().insert(x).contains(y) implies s.push(x).to_set().contains(
        y,
    ) by {
        if y == x {
            assert(s.push(x)[s.len() as int] == y);
        } else {
            let i = choose|i: int| 0 <= i < s.len() && s[i] == y;
            assert(s.push(x)[i] == y);
        }
    }
    assert(s.push(x).to_set() =~= s.to_set().insert(x));
}

impl KeySet {
    /// The keys, in arrival order.
    pub closed spec fn keys(&self) -> Seq<Seq<char>> {
        self.items@.map_values(|s: String| s@)
    }

    /// The keys, as a set.
    pub open spec fn key_set(&self) -> Set<Seq<char>> {
        self.keys().to_set()
    }

    /// Internal well-formedness: no key appears twice.
    pub closed spec fn wf(&self) -> bool {
        forall|i: int, j: int|
            0 <= i < j < self.keys().len() ==> self.keys()[i] != self.keys()[j]
    }

    /// Creates an empty key set.
    pub fn new() -> (r: Self)
        ensures
            r.wf(),
            r.keys() == Seq::<Seq<char>>::empty(),
            r.key_set() == Set::<Seq<char>>::empty(),
    {
        let r = KeySet { items: Vec::new() };
        proof {
            assert(r.keys() =~= Seq::<Seq<char>>::empty());
            assert(r.key_set() =~= Set::<Seq<char>>::empty());
        }
        r
    }

    /// Whether `k` is in the set.
    pub fn contains(&self, k: &String) -> (r: bool)
        ensures
            r == self.key_set().contains(k@),
    {
        let mut i: usize = 0;
        while i < self.items.len()
            invariant
                i <= self.items@.len(),
                forall|j: int| 0 <= j < i ==> self.keys()[j] != k@,
            decreases self.items@.len() - i,
        {
            if self.items[i] == *k {
                assert(self.keys()[i as int] == k@);
                return true;
            }
            i = i + 1;
        }
        assert(!self.keys().contains(k@));
        false
    }

    /// Adds `k`; keys already present are kept once.
    pub fn insert(&mut self, k: String)
        requires
            old(self).wf(),
        ensures
            final(self).wf(),
            final(self).key_set() == old(self).key_set().insert(k@),
            old(self).key_set().contains(k@) ==> final(self).keys() == old(self).keys(),
            !old(self).key_set().contains(k@) ==> final(self).keys() == old(self).keys().push(k@),
    {
        if !self.contains(&k) {
            let ghost pre = self.keys();
            self.items.push(k);
            proof {
                assert(self.keys() =~= pre.push(k@));
                lemma_push_to_set(pre, k@);
            }
        } else {
            proof {
                assert(old(self).key_set().insert(k@) =~= old(self).key_set());
            }
        }
    }

    /// How many keys are in the set.
    pub fn len(&self) -> (n: usize)
        ensures
            n == self.keys().len(),
    {
        self.items.len()
    }

    /// The `i`-th key, in arrival order.
    pub fn key_at(&self, i: usize) -> (k: &String)
        requires
            i < self.keys().len(),
        ensures
            k@ == self.keys()[i as int],
    {
        &self.items[i]
    }

    /// Empties the set.
    pub fn clear(&mut self)
        ensures
            final(self).wf(),
            final(self).keys() == Seq::<Seq<char>>::empty(),
            final(self).key_set() == Set::<Seq<char>>::empty(),
    {
        self.items.clear();
        proof {
            assert(self.keys() =~= Seq::<Seq<char>>::empty());
            assert(self.key_set() =~= Set::<Seq<char>>::empty());
        }
    }
}

} // verus!
