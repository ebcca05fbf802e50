use vstd::prelude::*;

verus! {

/// One record of a [`KvMap`]: a string key and the value stored under it.
struct Entry<T> {
    key: String,
    val: T,
}

/// A mapping from string keys to values, with each key present at most once.
///
/// Its mathematical view is a `Map<Seq<char>, T>`; every operation states
/// exactly how it changes that map and what it returns.
pub struct KvMap<T> {
    entries: Vec<Entry<T>>,
}

/// The map denoted by a sequence of entries: later entries shadow earlier
/// ones, though a well-formed `KvMap` never holds a key twice.
spec fn seq_map<T>(s: Seq<Entry<T>>) -> Map<Seq<char>, T>
    decreases s.len(),
{
    if s.len() == 0 {
        Map::empty()
    } else {
        seq_map(s.drop_last()).insert(s.last().key@, s.last().val)
    }
}

/// No two entries share a key.
spec fn distinct_keys<T>(s: Seq<Entry<T>>) -> bool {
    forall|i: int, j: int| 0 <= i < j < s.len() ==> s[i].key@ != s[j].key@
}

proof fn lemma_seq_map_contains<T>(s: Seq<Entry<T>>, k: Seq<char>)
    ensures
        seq_map(s).contains_key(k) <==> (exists|i: int| 0 <= i < s.len() && s[i].key@ == k),
    decreases s.len(),
{
    if s.len() > 0 {
        lemma_seq_map_contains(s.drop_last(), k);
        if s.last().key@ == k {
            assert(s[s.len() - 1].key@ == k);
        } else if exists|i: int| 0 <= i < s.len() && s[i].key@ == k {
            let i = choose|i: int| 0 <= i < s.len() && s[i].key@ == k;
            assert(s.drop_last()[i].key@ == k);
        }
    }
}

proof fn lemma_seq_map_index<T>(s: Seq<Entry<T>>, i: int)
    requires
        distinct_keys(s),
        0 <= i < s.len(),
    ensures
        seq_map(s).contains_key(s[i].key@),
        seq_map(s)[s[i].key@] == s[i].val,
    decreases s.len(),
{
    if i < s.len() - 1 {
        assert(distinct_keys(s.drop_last()));
        lemma_seq_map_index(s.drop_last(), i);
        assert(s.drop_last()[i] == s[i]);
        assert(s.last().key@ != s[i].key@);
    }
}

proof fn lemma_seq_map_push<T>(s: Seq<Entry<T>>, e: Entry<T>)
    ensures
        seq_map(s.push(e)) == seq_map(s).insert(e.key@, e.val),
{
    assert(s.push(e).drop_last() =~= s);
    assert(s.push(e).last() == e);
}

proof fn lemma_seq_map_remove<T>(s: Seq<Entry<T>>, i: int)
    requires
        distinct_keys(s),
        0 <= i < s.len(),
    ensures
        seq_map(s.remove(i)) == seq_map(s).remove(s[i].key@),
    decreases s.len(),
{
    let k = s[i].key@;
    if i == s.len() - 1 {
        assert(s.remove(i) =~= s.drop_last());
        lemma_seq_map_contains(s.drop_last(), k);
        assert(forall|j: int|
            0 <= j < s.drop_last().len() ==> s.drop_last()[j].key@ != k);
        assert(!seq_map(s.drop_last()).contains_key(k));
        assert(seq_map(s.drop_last()).insert(k, s[i].val).remove(k) =~= seq_map(s.drop_last()));
    } else {
        let d = s.drop_last();
        assert(distinct_keys(d));
        assert(d[i] == s[i]);
        lemma_seq_map_remove(d, i);
        assert(s.remove(i).drop_last() =~= d.remove(i));
        assert(s.remove(i).last() == s.last());
        assert(s.remove(i).len() == s.len() - 1);
        assert(seq_map(s.remove(i)) == seq_map(d.remove(i)).insert(s.last().key@, s.last().val));
        assert(s.last().key@ != k);
        assert(seq_map(d).remove(k).insert(s.last().key@, s.last().val)
            =~= seq_map(d).insert(s.last().key@, s.last().val).remove(k));
    }
}

proof fn lemma_distinct_keys_remove<T>(s: Seq<Entry<T>>, i: int)
    requires
        distinct_keys(s),
        0 <= i < s.len(),
    ensures
        distinct_keys(s.remove(i)),
{
    assert forall|p: int, q: int| 0 <= p < q < s.remove(i).len() implies
        s.remove(i)[p].key@ != s.remove(i)[q].key@ by {
        let p0 = if p < i { p } else { p + 1 };
        let q0 = if q < i { q } else { q + 1 };
        assert(s.remove(i)[p] == s[p0]);
        assert(s.remove(i)[q] == s[q0]);
    }
}

impl<T> KvMap<T> {
    /// The mapping this structure represents.
    pub closed spec fn view(&self) -> Map<Seq<char>, T> {
        seq_map(self.entries@)
    }

    /// Internal well-formedness: keys are pairwise distinct.
    pub closed spec fn wf(&self) -> bool {
        distinct_keys(self.entries@)
    }

    /// Creates an empty map.
    pub fn new() -> (r: Self)
        ensures
            r.wf(),
            r@ == Map::<Seq<char>, T>::empty(),
    {
        KvMap { entries: Vec::new() }
    }

    /// Index of the entry holding `k`, if one does.
    fn find(&self, k: &String) -> (r: Option<usize>)
        ensures
            match r {
                Some(i) => i < self.entries@.len() && self.entries@[i as int].key@ == k@,
                None => forall|i: int| 0 <= i < self.entries@.len()
                    ==> self.entries@[i].key@ != k@,
            },
    {
        let mut i: usize = 0;
        while i < self.entries.len()
            invariant
                i <= self.entries@.len(),
                forall|j: int| 0 <= j < i ==> self.entries@[j].key@ != k@,
            decreases self.entries@.len() - i,
        {
            if self.entries[i].key == *k {
                return Some(i);
            }
            i = i + 1;
        }
        None
    }

    /// Whether `k` is present.
    pub fn contains_key(&self, k: &String) -> (r: bool)
        ensures
            r == self@.contains_key(k@),
    {
        proof {
            lemma_seq_map_contains(self.entries@, k@);
        }
        self.find(k).is_some()
    }

    /// The value stored under `k`, if any.
    pub fn get(&self, k: &String) -> (r: Option<&T>)
        requires
            self.wf(),
        ensures
            match r {
                Some(v) => self@.contains_key(k@) && *v == self@[k@],
                None => !self@.contains_key(k@),
            },
    {
        proof {
            lemma_seq_map_contains(self.entries@, k@);
        }
        match self.find(k) {
            Some(i) => {
                proof {
                    lemma_seq_map_index(self.entries@, i as int);
                }
                Some(&self.entries[i].val)
            },
            None => None,
        }
    }

    /// Inserts or overwrites the value under `k`; returns the value it
    /// replaced, if one was present.
    pub fn insert(&mut self, k: String, v: T) -> (prev: Option<T>)
        requires
            old(self).wf(),
        ensures
            final(self).wf(),
            final(self)@ == old(self)@.insert(k@, v),
            prev == (if old(self)@.contains_key(k@) {
                Some(old(self)@[k@])
            } else {
                None::<T>
            }),
    {
        proof {
            lemma_seq_map_contains(self.entries@, k@);
        }
        let prev = match self.find(&k) {
            Some(i) => {
                proof {
                    lemma_seq_map_index(self.entries@, i as int);
                    lemma_seq_map_remove(self.entries@, i as int);
                    lemma_distinct_keys_remove(self.entries@, i as int);
                    lemma_seq_map_contains(self.entries@.remove(i as int), k@);
                }
                let e = self.entries.remove(i);
                Some(e.val)
            },
            None => None,
        };
        let ghost pre = self.entries@;
        proof {
            lemma_seq_map_push(pre, Entry { key: k, val: v });
        }
        self.entries.push(Entry { key: k, val: v });
        proof {
            assert(forall|j: int| 0 <= j < pre.len() ==> pre[j].key@ != k@);
            assert(distinct_keys(self.entries@));
            if prev is Some {
                assert(final(self)@ =~= old(self)@.insert(k@, v));
            }
        }
        prev
    }

    /// Removes `k`; returns the value that was stored under it, if any.
    pub fn remove(&mut self, k: &String) -> (prev: Option<T>)
        requires
            old(self).wf(),
        ensures
            final(self).wf(),
            final(self)@ == old(self)@.remove(k@),
            prev == (if old(self)@.contains_key(k@) {
                Some(old(self)@[k@])
            } else {
                None::<T>
            }),
    {
        proof {
            lemma_seq_map_contains(self.entries@, k@);
        }
        match self.find(k) {
            Some(i) => {
                proof {
                    lemma_seq_map_index(self.entries@, i as int);
                    lemma_seq_map_remove(self.entries@, i as int);
                    lemma_distinct_keys_remove(self.entries@, i as int);
                }
                let e = self.entries.remove(i);
                Some(e.val)
            },
            None => {
                proof {
                    assert(final(self)@ =~= old(self)@.remove(k@));
                }
                None
            },
        }
    }

    /// How many keys are present.
    pub fn len(&self) -> (n: usize)
        requires
            self.wf(),
        ensures
            n == self@.dom().len(),
    {
        proof {
            lemma_seq_map_len(self.entries@);
        }
        self.entries.len()
    }
}

proof fn lemma_seq_map_len<T>(s: Seq<Entry<T>>)
    requires
        distinct_keys(s),
    ensures
        seq_map(s).dom().len() == s.len(),
        seq_map(s).dom().finite(),
    decreases s.len(),
{
    if s.len() > 0 {
        let d = s.drop_last();
        assert(distinct_keys(d));
        lemma_seq_map_len(d);
        lemma_seq_map_contains(d, s.last().key@);
        assert(forall|j: int| 0 <= j < d.len() ==> d[j].key@ != s.last().key@);
        assert(!seq_map(d).contains_key(s.last().key@));
        assert(seq_map(s).dom() =~= seq_map(d).dom().insert(s.last().key@));
    }
}

} // verus!
