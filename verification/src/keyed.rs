//! A small association list keyed by text, used where the model needs a map
//! from identifiers to records. Keys are unique; lookups go by the key's
//! character sequence.
use vstd::prelude::*;
use crate::text::str_equal;

verus! {

/// Entries with unique text keys, in insertion order.
#[derive(Debug)]
pub struct KeyedList<V> {
    pub items: Vec<(String, V)>,
}

pub open spec fn keys_unique<V>(s: Seq<(String, V)>) -> bool {
    forall|i: int, j: int|
        0 <= i < s.len() && 0 <= j < s.len() && i != j ==> (#[trigger] s[i]).0@ != (#[trigger] s[j]).0@
}

pub open spec fn key_index<V>(s: Seq<(String, V)>, k: Seq<char>) -> int
    decreases s.len(),
{
    if s.len() == 0 {
        -1
    } else if s.last().0@ == k {
        s.len() - 1
    } else {
        key_index(s.drop_last(), k)
    }
}

pub proof fn lemma_key_index<V>(s: Seq<(String, V)>, k: Seq<char>)
    requires
        keys_unique(s),
    ensures
        -1 <= key_index(s, k) < s.len(),
        key_index(s, k) >= 0 ==> s[key_index(s, k)].0@ == k,
        key_index(s, k) == -1 <==> forall|i: int| 0 <= i < s.len() ==> (#[trigger] s[i]).0@ != k,
        forall|i: int| 0 <= i < s.len() && (#[trigger] s[i]).0@ == k ==> key_index(s, k) == i,
    decreases s.len(),
{
    if s.len() > 0 {
        let t = s.drop_last();
        assert(keys_unique(t)) by {
            assert forall|i: int, j: int|
                0 <= i < t.len() && 0 <= j < t.len() && i != j implies (#[trigger] t[i]).0@ != (
                #[trigger] t[j]).0@ by {
                assert(t[i] == s[i] && t[j] == s[j]);
            }
        }
        lemma_key_index(t, k);
        if s.last().0@ != k {
            assert forall|i: int| 0 <= i < s.len() && (#[trigger] s[i]).0@ == k implies key_index(
                s,
                k,
            ) == i by {
                assert(i < s.len() - 1);
                assert(t[i] == s[i]);
            }
        } else {
            assert forall|i: int| 0 <= i < s.len() && (#[trigger] s[i]).0@ == k implies key_index(
                s,
                k,
            ) == i by {
                if i != s.len() - 1 {
                    assert(s[i].0@ != s[s.len() - 1].0@);
                }
            }
        }
    }
}

/// The map view has one key per entry.
pub proof fn lemma_view_map_len<V>(l: &KeyedList<V>)
    requires
        l.wf(),
    ensures
        l.view_map().dom().len() == l.items@.len(),
        l.view_map().dom().finite(),
{
    let ks = l.key_seq();
    assert(ks.no_duplicates()) by {
        assert forall|i: int, j: int| 0 <= i < ks.len() && 0 <= j < ks.len() && i != j implies ks[i] != ks[j] by {
            assert(l.items@[i].0@ != l.items@[j].0@);
        }
    }
    ks.unique_seq_to_set();
    assert(l.view_map().dom() =~= ks.to_set()) by {
        assert forall|k: Seq<char>| l.view_map().dom().contains(k) == ks.to_set().contains(k) by {
            if l.has(k) {
                let i = choose|i: int| 0 <= i < l.items@.len() && (#[trigger] l.items@[i]).0@ == k;
                assert(ks[i] == k);
            }
            if ks.contains(k) {
                let i = choose|i: int| 0 <= i < ks.len() && ks[i] == k;
                assert(l.items@[i].0@ == k);
            }
        }
    }
}

impl<V> KeyedList<V> {
    pub open spec fn wf(&self) -> bool {
        keys_unique(self.items@)
    }

    /// Does some entry have key `k`.
    pub open spec fn has(&self, k: Seq<char>) -> bool {
        exists|i: int| 0 <= i < self.items@.len() && (#[trigger] self.items@[i]).0@ == k
    }

    /// The value stored under `k` (meaningful when `has(k)`).
    pub open spec fn at(&self, k: Seq<char>) -> V {
        self.items@[key_index(self.items@, k)].1
    }

    /// Keys in insertion order.
    pub open spec fn key_seq(&self) -> Seq<Seq<char>> {
        self.items@.map_values(|e: (String, V)| e.0@)
    }

    pub open spec fn size(&self) -> nat {
        self.items@.len()
    }

    pub fn new() -> (r: Self)
        ensures
            r.wf(),
            r.items@.len() == 0,
    {
        KeyedList { items: Vec::new() }
    }

    pub fn len(&self) -> (n: usize)
        ensures
            n == self.items@.len(),
    {
        self.items.len()
    }

    /// Position of the entry with key `k`, if any.
    pub fn position(&self, k: &str) -> (r: Option<usize>)
        requires
            self.wf(),
        ensures
            match r {
                Some(i) => i < self.items@.len() && self.items@[i as int].0@ == k@ && i
                    == key_index(self.items@, k@),
                None => !self.has(k@) && key_index(self.items@, k@) == -1,
            },
    {
        proof {
            lemma_key_index(self.items@, k@);
        }
        let n = self.items.len();
        let mut i: usize = 0;
        while i < n
            invariant
                n == self.items@.len(),
                i <= n,
                keys_unique(self.items@),
                forall|j: int| 0 <= j < i ==> (#[trigger] self.items@[j]).0@ != k@,
            decreases n - i,
        {
            if str_equal(self.items[i].0.as_str(), k) {
                proof {
                    lemma_key_index(self.items@, k@);
                }
                return Some(i);
            }
            i = i + 1;
        }
        None
    }

    pub fn contains(&self, k: &str) -> (b: bool)
        requires
            self.wf(),
        ensures
            b == self.has(k@),
    {
        self.position(k).is_some()
    }

    pub fn get(&self, k: &str) -> (r: Option<&V>)
        requires
            self.wf(),
        ensures
            match r {
                Some(v) => self.has(k@) && *v == self.at(k@),
                None => !self.has(k@),
            },
    {
        match self.position(k) {
            Some(i) => Some(&self.items[i].1),
            None => None,
        }
    }

    /// Add a new entry under a key that is not present yet.
    pub fn push_new(&mut self, k: String, v: V)
        requires
            old(self).wf(),
            !old(self).has(k@),
        ensures
            final(self).wf(),
            final(self).items@ == old(self).items@.push((k, v)),
    {
        self.items.push((k, v));
        proof {
            let s = self.items@;
            assert forall|i: int, j: int|
                0 <= i < s.len() && 0 <= j < s.len() && i != j implies (#[trigger] s[i]).0@ != (
                #[trigger] s[j]).0@ by {
                if i == s.len() - 1 {
                    assert(old(self).items@[j] == s[j]);
                } else if j == s.len() - 1 {
                    assert(old(self).items@[i] == s[i]);
                } else {
                    assert(old(self).items@[i] == s[i] && old(self).items@[j] == s[j]);
                }
            }
        }
    }

    /// Replace the value at position `i`, keeping the key.
    pub fn set_value(&mut self, i: usize, v: V)
        requires
            old(self).wf(),
            i < old(self).items@.len(),
        ensures
            final(self).wf(),
            final(self).items@ == old(self).items@.update(i as int, (old(self).items@[i as int].0, v)),
    {
        let k = self.items.remove(i);
        let key = k.0;
        self.items.insert(i, (key, v));
        proof {
            assert(self.items@ =~= old(self).items@.update(i as int, (old(self).items@[i as int].0, v)));
            let s = self.items@;
            assert forall|a: int, b: int|
                0 <= a < s.len() && 0 <= b < s.len() && a != b implies (#[trigger] s[a]).0@ != (
                #[trigger] s[b]).0@ by {
                assert(s[a].0 == old(self).items@[a].0);
                assert(s[b].0 == old(self).items@[b].0);
            }
        }
    }

    /// The entries as a map from key to value.
    pub open spec fn view_map(&self) -> Map<Seq<char>, V> {
        Map::new(|k: Seq<char>| self.has(k), |k: Seq<char>| self.at(k))
    }

    /// Insert `v` under `k`, replacing a previous value in place or appending.
    pub fn upsert(&mut self, k: String, v: V)
        requires
            old(self).wf(),
        ensures
            final(self).wf(),
            final(self).view_map() == old(self).view_map().insert(k@, v),
            old(self).has(k@) ==> final(self).key_seq() == old(self).key_seq(),
            !old(self).has(k@) ==> final(self).key_seq() == old(self).key_seq().push(k@),
    {
        let ghost ks = k@;
        match self.position(k.as_str()) {
            Some(i) => {
                self.set_value(i, v);
                proof {
                    lemma_key_index(old(self).items@, ks);
                    lemma_key_index(self.items@, ks);
                    assert(self.key_seq() =~= old(self).key_seq());
                    assert forall|k2: Seq<char>| #[trigger] self.has(k2) == old(self).has(k2) by {
                        if self.has(k2) {
                            let j = choose|j: int| 0 <= j < self.items@.len() && (#[trigger] self.items@[j]).0@ == k2;
                            assert(old(self).items@[j].0@ == k2);
                        }
                        if old(self).has(k2) {
                            let j = choose|j: int| 0 <= j < old(self).items@.len() && (#[trigger] old(self).items@[j]).0@ == k2;
                            assert(self.items@[j].0@ == k2);
                        }
                    }
                    assert forall|k2: Seq<char>| self.has(k2) implies #[trigger] self.at(k2) == (if k2 == ks { v } else { old(self).at(k2) }) by {
                        lemma_key_index(self.items@, k2);
                        lemma_key_index(old(self).items@, k2);
                        let j = key_index(self.items@, k2);
                        assert(old(self).items@[j].0@ == k2);
                    }
                    assert(self.view_map() =~= old(self).view_map().insert(ks, v));
                }
            },
            None => {
                self.push_new(k, v);
                proof {
                    assert(self.key_seq() =~= old(self).key_seq().push(ks));
                    assert forall|k2: Seq<char>| #[trigger] self.has(k2) == (old(self).has(k2) || k2 == ks) by {
                        if self.has(k2) {
                            let j = choose|j: int| 0 <= j < self.items@.len() && (#[trigger] self.items@[j]).0@ == k2;
                            if j < old(self).items@.len() {
                                assert(old(self).items@[j].0@ == k2);
                            }
                        }
                        if old(self).has(k2) {
                            let j = choose|j: int| 0 <= j < old(self).items@.len() && (#[trigger] old(self).items@[j]).0@ == k2;
                            assert(self.items@[j].0@ == k2);
                        }
                        if k2 == ks {
                            assert(self.items@[old(self).items@.len() as int].0@ == k2);
                        }
                    }
                    assert forall|k2: Seq<char>| self.has(k2) implies #[trigger] self.at(k2) == (if k2 == ks { v } else { old(self).at(k2) }) by {
                        lemma_key_index(self.items@, k2);
                        lemma_key_index(old(self).items@, k2);
                        let j = key_index(self.items@, k2);
                        if k2 != ks {
                            assert(j < old(self).items@.len());
                            assert(old(self).items@[j].0@ == k2);
                        } else {
                            assert(self.items@[old(self).items@.len() as int].0@ == ks);
                        }
                    }
                    assert(self.view_map() =~= old(self).view_map().insert(ks, v));
                }
            },
        }
    }

    /// Remove the entry at position `i`, returning it.
    pub fn remove_at(&mut self, i: usize) -> (e: (String, V))
        requires
            old(self).wf(),
            i < old(self).items@.len(),
        ensures
            final(self).wf(),
            e == old(self).items@[i as int],
            final(self).items@ == old(self).items@.remove(i as int),
    {
        let e = self.items.remove(i);
        proof {
            let s = self.items@;
            assert forall|a: int, b: int|
                0 <= a < s.len() && 0 <= b < s.len() && a != b implies (#[trigger] s[a]).0@ != (
                #[trigger] s[b]).0@ by {
                let oa = if a < i { a } else { a + 1 };
                let ob = if b < i { b } else { b + 1 };
                assert(s[a] == old(self).items@[oa]);
                assert(s[b] == old(self).items@[ob]);
            }
        }
        e
    }
}

} // verus!
