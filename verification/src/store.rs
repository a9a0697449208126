//! The in-memory key-value store: a mapping from byte-string keys to
//! byte-string values, owned by the single event-loop thread.
//!
//! The store is kept as a list of entries with pairwise distinct keys; its
//! mathematical model is the finite map the entries denote. `set`
//! unconditionally overwrites and always succeeds; `get` answers the current
//! value or reports a miss, never an error.

use vstd::prelude::*;

verus! {

/// One stored binding.
struct Entry {
    key: Vec<u8>,
    value: Vec<u8>,
}

/// No two entries share a key.
spec fn keys_unique(s: Seq<Entry>) -> bool {
    forall|i: int, j: int| 0 <= i < j < s.len() ==> s[i].key@ != s[j].key@
}

/// The finite map a sequence of entries denotes.
spec fn kv_map(s: Seq<Entry>) -> Map<Seq<u8>, Seq<u8>>
    decreases s.len(),
{
    if s.len() == 0 {
        Map::empty()
    } else {
        kv_map(s.drop_last()).insert(s.last().key@, s.last().value@)
    }
}

/// A key is in the map exactly when some entry holds it.
proof fn lemma_kv_map_contains(s: Seq<Entry>, k: Seq<u8>)
    ensures
        kv_map(s).contains_key(k) <==> exists|i: int| 0 <= i < s.len() && s[i].key@ == k,
    decreases s.len(),
{
    if s.len() > 0 {
        lemma_kv_map_contains(s.drop_last(), k);
        if s.last().key@ == k {
            assert(s[s.len() - 1].key@ == k);
        } else {
            if exists|i: int| 0 <= i < s.len() && s[i].key@ == k {
                let i = choose|i: int| 0 <= i < s.len() && s[i].key@ == k;
                assert(s.drop_last()[i] == s[i]);
            }
        }
    }
}

/// With distinct keys, the map carries each entry's value at its key.
proof fn lemma_kv_map_lookup(s: Seq<Entry>, i: int)
    requires
        keys_unique(s),
        0 <= i < s.len(),
    ensures
        kv_map(s).contains_key(s[i].key@),
        kv_map(s)[s[i].key@] == s[i].value@,
    decreases s.len(),
{
    if i < s.len() - 1 {
        assert(keys_unique(s.drop_last())) by {
            assert(forall|x: int, y: int|
                0 <= x < y < s.len() - 1 ==> s.drop_last()[x] == s[x] && s.drop_last()[y] == s[y]);
        }
        assert(s.drop_last()[i] == s[i]);
        lemma_kv_map_lookup(s.drop_last(), i);
        assert(s[i].key@ != s.last().key@);
    }
}

/// Replacing the value of entry `i` inserts at that entry's key.
proof fn lemma_kv_map_update(s: Seq<Entry>, i: int, e: Entry)
    requires
        keys_unique(s),
        0 <= i < s.len(),
        e.key@ == s[i].key@,
    ensures
        kv_map(s.update(i, e)) == kv_map(s).insert(e.key@, e.value@),
    decreases s.len(),
{
    let t = s.update(i, e);
    if i == s.len() - 1 {
        assert(t.drop_last() =~= s.drop_last());
        assert(t.last() == e);
        assert(kv_map(t) =~= kv_map(s).insert(e.key@, e.value@));
    } else {
        assert(keys_unique(s.drop_last())) by {
            assert(forall|x: int, y: int|
                0 <= x < y < s.len() - 1 ==> s.drop_last()[x] == s[x] && s.drop_last()[y] == s[y]);
        }
        assert(s.drop_last()[i] == s[i]);
        lemma_kv_map_update(s.drop_last(), i, e);
        assert(t.drop_last() =~= s.drop_last().update(i, e));
        assert(t.last() == s.last());
        assert(s[i].key@ != s.last().key@);
        assert(kv_map(t) =~= kv_map(s).insert(e.key@, e.value@));
    }
}

/// Appending a fresh entry inserts its binding.
proof fn lemma_kv_map_push(s: Seq<Entry>, e: Entry)
    ensures
        kv_map(s.push(e)) == kv_map(s).insert(e.key@, e.value@),
{
    assert(s.push(e).drop_last() =~= s);
    assert(s.push(e).last() == e);
}

/// Are two byte strings equal?
pub fn bytes_eq(a: &[u8], b: &[u8]) -> (r: bool)
    ensures
        r == (a@ == b@),
{
    if a.len() != b.len() {
        return false;
    }
    let mut i: usize = 0;
    while i < a.len()
        invariant
            i <= a@.len(),
            a@.len() == b@.len(),
            forall|j: int| 0 <= j < i ==> a@[j] == b@[j],
        decreases a@.len() - i,
    {
        if a[i] != b[i] {
            return false;
        }
        i = i + 1;
    }
    proof {
        assert(a@ =~= b@);
    }
    true
}

/// The in-memory mapping from keys to values.
pub struct Store {
    entries: Vec<Entry>,
}

impl View for Store {
    type V = Map<Seq<u8>, Seq<u8>>;

    closed spec fn view(&self) -> Map<Seq<u8>, Seq<u8>> {
        kv_map(self.entries@)
    }
}

impl Store {
    /// The store's internal invariant: entry keys are pairwise distinct.
    pub closed spec fn wf(&self) -> bool {
        keys_unique(self.entries@)
    }

    /// An empty store.
    pub fn new() -> (s: Store)
        ensures
            s.wf(),
            s@ == Map::<Seq<u8>, Seq<u8>>::empty(),
    {
        Store { entries: Vec::new() }
    }

    /// Bind `key` to `value`, overwriting any earlier binding.
    pub fn set(&mut self, key: Vec<u8>, value: Vec<u8>)
        requires
            old(self).wf(),
        ensures
            final(self).wf(),
            final(self)@ == old(self)@.insert(key@, value@),
    {
        let n = self.entries.len();
        let mut i: usize = 0;
        while i < n
            invariant
                i <= n,
                n == self.entries@.len(),
                self == old(self),
                old(self).wf(),
                forall|j: int| 0 <= j < i ==> self.entries@[j].key@ != key@,
            decreases n - i,
        {
            if bytes_eq(self.entries[i].key.as_slice(), key.as_slice()) {
                let e = self.entries.remove(i);
                let fresh = Entry { key: e.key, value };
                self.entries.insert(i, fresh);
                proof {
                    assert(self.entries@ =~= old(self).entries@.update(i as int, fresh));
                    lemma_kv_map_update(old(self).entries@, i as int, fresh);
                    assert(keys_unique(self.entries@)) by {
                        assert(forall|x: int|
                            0 <= x < self.entries@.len() && x != i ==> self.entries@[x]
                                == old(self).entries@[x]);
                    }
                }
                return;
            }
            i = i + 1;
        }
        let fresh = Entry { key, value };
        proof {
            lemma_kv_map_push(self.entries@, fresh);
        }
        self.entries.push(fresh);
    }

    /// The value bound to `key`, if any.
    pub fn get(&self, key: &[u8]) -> (r: Option<&Vec<u8>>)
        requires
            self.wf(),
        ensures
            match r {
                Some(v) => self@.contains_key(key@) && v@ == self@[key@],
                None => !self@.contains_key(key@),
            },
    {
        let n = self.entries.len();
        let mut i: usize = 0;
        while i < n
            invariant
                i <= n,
                n == self.entries@.len(),
                self.wf(),
                forall|j: int| 0 <= j < i ==> self.entries@[j].key@ != key@,
            decreases n - i,
        {
            let e = &self.entries[i];
            if bytes_eq(e.key.as_slice(), key) {
                proof {
                    lemma_kv_map_lookup(self.entries@, i as int);
                }
                return Some(&e.value);
            }
            i = i + 1;
        }
        proof {
            lemma_kv_map_contains(self.entries@, key@);
        }
        None
    }
}

} // verus!
