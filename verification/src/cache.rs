use vstd::prelude::*;

verus! {

/// One memoized render result: the finished markup and, for inline math, the
/// measured baseline alignment in ten-thousandths of a point.
#[derive(Clone, Debug, PartialEq, Eq)]
pub struct CacheEntry {
    pub content: String,
    pub align: Option<i64>,
}

/// The map denoted by an association list; entries later in the list override
/// earlier ones with the same key.
pub open spec fn assoc_map(s: Seq<(u64, CacheEntry)>) -> Map<u64, CacheEntry>
    decreases s.len(),
{
    if s.len() == 0 {
        Map::empty()
    } else {
        assoc_map(s.drop_last()).insert(s.last().0, s.last().1)
    }
}

/// All keys in an association list are distinct.
pub open spec fn distinct_keys(s: Seq<(u64, CacheEntry)>) -> bool {
    forall|i: int, j: int| 0 <= i < j < s.len() ==> s[i].0 != s[j].0
}

proof fn lemma_assoc_absent(s: Seq<(u64, CacheEntry)>, k: u64)
    requires
        forall|i: int| 0 <= i < s.len() ==> s[i].0 != k,
    ensures
        !assoc_map(s).contains_key(k),
    decreases s.len(),
{
    if s.len() > 0 {
        assert(forall|i: int| 0 <= i < s.drop_last().len() ==> s.drop_last()[i].0 != k);
        lemma_assoc_absent(s.drop_last(), k);
    }
}

proof fn lemma_assoc_present(s: Seq<(u64, CacheEntry)>, j: int, k: u64)
    requires
        0 <= j < s.len(),
        s[j].0 == k,
        forall|i: int| j < i < s.len() ==> s[i].0 != k,
    ensures
        assoc_map(s).contains_key(k),
        assoc_map(s)[k] == s[j].1,
    decreases s.len(),
{
    if j == s.len() - 1 {
    } else {
        assert(s.drop_last()[j] == s[j]);
        lemma_assoc_present(s.drop_last(), j, k);
    }
}

proof fn lemma_assoc_update(s: Seq<(u64, CacheEntry)>, j: int, k: u64, v: CacheEntry)
    requires
        distinct_keys(s),
        0 <= j < s.len(),
        s[j].0 == k,
    ensures
        assoc_map(s.update(j, (k, v))) =~= assoc_map(s).insert(k, v),
    decreases s.len(),
{
    let t = s.update(j, (k, v));
    if j == s.len() - 1 {
        assert(t.drop_last() =~= s.drop_last());
        assert(assoc_map(t) =~= assoc_map(s).insert(k, v));
    } else {
        assert(t.drop_last() =~= s.drop_last().update(j, (k, v)));
        assert(distinct_keys(s.drop_last())) by {
            assert(forall|a: int, b: int|
                0 <= a < b < s.drop_last().len() ==> s.drop_last()[a].0 != s.drop_last()[b].0);
        }
        assert(s.drop_last()[j] == s[j]);
        lemma_assoc_update(s.drop_last(), j, k, v);
        // the last key differs from k, so the two inserts commute
        assert(s.last().0 != k);
        assert(assoc_map(t) =~= assoc_map(s).insert(k, v));
    }
}

/// Content-addressable render cache: a key derived from the render inputs
/// maps to the finished result.  Backed by an association list with distinct
/// keys; its meaning is the map `self@`.
pub struct ContentCache {
    entries: Vec<(u64, CacheEntry)>,
}

impl View for ContentCache {
    type V = Map<u64, CacheEntry>;

    closed spec fn view(&self) -> Map<u64, CacheEntry> {
        assoc_map(self.entries@)
    }
}

impl ContentCache {
    /// The stored entries in insertion order; exposed so the persistence
    /// layer can serialize them.
    pub closed spec fn entries_seq(&self) -> Seq<(u64, CacheEntry)> {
        self.entries@
    }

    /// Internal validity: no key occurs twice.
    pub closed spec fn wf(&self) -> bool {
        distinct_keys(self.entries@)
    }

    pub fn new() -> (c: ContentCache)
        ensures
            c.wf(),
            c@ == Map::<u64, CacheEntry>::empty(),
            c.entries_seq() === Seq::empty(),
    {
        ContentCache { entries: Vec::new() }
    }

    /// Rebuilds a cache from a decoded entry list with distinct keys.
    pub fn from_entries(entries: Vec<(u64, CacheEntry)>) -> (c: ContentCache)
        requires
            distinct_keys(entries@),
        ensures
            c.wf(),
            c.entries_seq() == entries@,
            c@ == assoc_map(entries@),
    {
        ContentCache { entries }
    }

    pub fn num_entries(&self) -> (n: usize)
        ensures
            n == self.entries_seq().len(),
    {
        self.entries.len()
    }

    /// A read-only view of the stored entries, for serialization.
    pub fn entry_list(&self) -> (r: &Vec<(u64, CacheEntry)>)
        ensures
            r@ == self.entries_seq(),
    {
        &self.entries
    }

    fn find_index(&self, key: u64) -> (r: Option<usize>)
        ensures
            match r {
                Some(j) => {
                    &&& j < self.entries@.len()
                    &&& self.entries@[j as int].0 == key
                    &&& forall|i: int| j < i < self.entries@.len() ==> self.entries@[i].0 != key
                },
                None => forall|i: int| 0 <= i < self.entries@.len() ==> self.entries@[i].0 != key,
            },
    {
        let n = self.entries.len();
        let mut i: usize = n;
        while i > 0
            invariant
                i <= n,
                n == self.entries@.len(),
                forall|j: int| i <= j < n ==> self.entries@[j].0 != key,
            decreases i,
        {
            i = i - 1;
            if self.entries[i].0 == key {
                return Some(i);
            }
        }
        None
    }

    /// Looks a key up; no side effect.
    pub fn get(&self, key: u64) -> (r: Option<&CacheEntry>)
        requires
            self.wf(),
        ensures
            match r {
                Some(e) => self@.contains_key(key) && *e == self@[key],
                None => !self@.contains_key(key),
            },
    {
        match self.find_index(key) {
            Some(j) => {
                proof {
                    lemma_assoc_present(self.entries@, j as int, key);
                }
                Some(&self.entries[j].1)
            },
            None => {
                proof {
                    lemma_assoc_absent(self.entries@, key);
                }
                None
            },
        }
    }

    /// Adds or overwrites the entry for a key.
    pub fn insert(&mut self, key: u64, value: CacheEntry)
        requires
            old(self).wf(),
        ensures
            final(self).wf(),
            final(self)@ == old(self)@.insert(key, value),
    {
        match self.find_index(key) {
            Some(j) => {
                proof {
                    lemma_assoc_update(self.entries@, j as int, key, value);
                }
                self.entries.set(j, (key, value));
            },
            None => {
                proof {
                    let s = self.entries@;
                    let t = s.push((key, value));
                    assert(t.drop_last() =~= s);
                    assert(assoc_map(t) =~= assoc_map(s).insert(key, value));
                }
                self.entries.push((key, value));
            },
        }
        assert(final(self)@ =~= old(self)@.insert(key, value));
    }
}

/// Laws of the cache, over its map model: a key reads back what was last
/// inserted under it; a key never inserted reads back nothing; re-inserting
/// the very same entry changes nothing.
pub proof fn lemma_cache_laws(m: Map<u64, CacheEntry>, k: u64, v: CacheEntry)
    ensures
        m.insert(k, v).contains_key(k),
        m.insert(k, v)[k] == v,
        !Map::<u64, CacheEntry>::empty().contains_key(k),
        m.insert(k, v).insert(k, v) == m.insert(k, v),
{
    assert(m.insert(k, v).insert(k, v) =~= m.insert(k, v));
}

} // verus!
