//! Bounded recipient cache for received ciphertext plus eligible local keys.
use vstd::prelude::*;
use crate::order::{seq_lt, str_lt, lemma_lt_transitive, lemma_lt_trichotomy};
use crate::text::{str_equal, text};

verus! {

/// Local content-key state of a cached message.
#[derive(Clone, Copy, Debug, Eq, PartialEq)]
pub enum KeyState {
    /// A usable cached content key.
    Cached([u8; 32]),
    /// A decoy key that never decrypts.
    Decoy([u8; 32]),
    /// The key was cooperatively shredded.
    Shredded,
    /// The key is retention-locked behind an authorized live-key flow.
    Locked,
    /// Key requests are rate limited.
    RateLimited,
    /// No usable key exists locally.
    Unavailable,
}

/// Local decrypt failures for cached recipient ciphertext.
#[derive(Clone, Debug, Eq, PartialEq)]
pub enum LocalDecryptError {
    /// The message is not present in the local recipient cache.
    Missing(String),
    /// The message has a cooperative shred tombstone.
    Shredded(String),
    /// The message key is retention-locked and requires authorized live-key flow.
    Locked(String),
    /// The message has no usable local decrypt key.
    Unavailable(String),
}

impl LocalDecryptError {
    /// Human-readable description of the error.
    pub fn message(&self) -> (r: String)
        ensures
            self matches LocalDecryptError::Missing(m) ==> r@ == "cached message not found: "@ + m@,
            self matches LocalDecryptError::Shredded(m) ==> r@ == "message content key has been shredded: "@ + m@,
            self matches LocalDecryptError::Locked(m) ==> r@ == "message content key is retention locked: "@ + m@,
            self matches LocalDecryptError::Unavailable(m) ==> r@ == "message content key is unavailable: "@ + m@,
    {
        match self {
            LocalDecryptError::Missing(m) => crate::text::join2("cached message not found: ", m.as_str()),
            LocalDecryptError::Shredded(m) => crate::text::join2("message content key has been shredded: ", m.as_str()),
            LocalDecryptError::Locked(m) => crate::text::join2("message content key is retention locked: ", m.as_str()),
            LocalDecryptError::Unavailable(m) => crate::text::join2("message content key is unavailable: ", m.as_str()),
        }
    }
}

/// Bounded recipient cache entry.
#[derive(Debug, Eq, PartialEq)]
pub struct RecipientCacheEntry {
    /// Message id.
    pub message_id: String,
    /// Received ciphertext.
    pub ciphertext: Vec<u8>,
    /// Cached/locked/shredded content-key state.
    pub key_state: KeyState,
    /// Deterministic receive timestamp for cache eviction.
    pub received_at_ms: u64,
}

/// A cache entry by value: id, ciphertext, key state, receive time.
pub type CacheView = (Seq<char>, Seq<u8>, KeyState, u64);

pub open spec fn cview(e: RecipientCacheEntry) -> CacheView {
    (e.message_id@, e.ciphertext@, e.key_state, e.received_at_ms)
}

impl Clone for RecipientCacheEntry {
    fn clone(&self) -> (r: Self)
        ensures
            cview(r) == cview(*self),
    {
        RecipientCacheEntry {
            message_id: self.message_id.clone(),
            ciphertext: self.ciphertext.clone(),
            key_state: self.key_state,
            received_at_ms: self.received_at_ms,
        }
    }
}

impl RecipientCacheEntry {
    /// Construct a recipient cache entry.
    pub fn new(message_id: &str, ciphertext: Vec<u8>, key_state: KeyState, received_at_ms: u64) -> (r: Self)
        ensures
            cview(r) == (message_id@, ciphertext@, key_state, received_at_ms),
    {
        RecipientCacheEntry { message_id: String::from_str(message_id), ciphertext, key_state, received_at_ms }
    }
}

/// Eviction order: older receive time first, then smaller message id.
pub open spec fn older(a: CacheView, b: CacheView) -> bool {
    a.3 < b.3 || (a.3 == b.3 && seq_lt(a.0, b.0))
}

/// `x` is the entry of `s` that eviction removes first.
pub open spec fn is_oldest(s: Set<CacheView>, x: CacheView) -> bool {
    s.contains(x) && forall|y: CacheView| #[trigger] s.contains(y) && y != x ==> older(x, y)
}

/// The entry eviction removes was received no later than any other entry;
/// among entries received at the same time it has the smallest message id.
pub proof fn law_eviction_takes_earliest_received(s: Set<CacheView>, x: CacheView)
    requires
        is_oldest(s, x),
    ensures
        forall|y: CacheView| #[trigger] s.contains(y) ==> x.3 <= y.3,
        forall|y: CacheView| #[trigger] s.contains(y) && y != x && y.3 == x.3 ==> seq_lt(x.0, y.0),
{
}

/// The cache after storing `e`: any entry with its id is replaced.
pub open spec fn upsert(s: Set<CacheView>, e: CacheView) -> Set<CacheView> {
    s.filter(|x: CacheView| x.0 != e.0).insert(e)
}

/// The same entry with its key marked shredded.
pub open spec fn shredded(x: CacheView) -> CacheView {
    (x.0, x.1, KeyState::Shredded, x.3)
}

/// The harness cipher: each byte XORed with the key byte at its index modulo 32.
pub open spec fn xor_spec(c: Seq<u8>, key: Seq<u8>) -> Seq<u8> {
    Seq::new(c.len(), |i: int| c[i] ^ key[i % 32])
}

pub open spec fn ids_sorted(s: Seq<RecipientCacheEntry>) -> bool {
    forall|i: int, j: int| 0 <= i < j < s.len() ==> seq_lt(#[trigger] s[i].message_id@, #[trigger] s[j].message_id@)
}

pub open spec fn cvs(s: Seq<RecipientCacheEntry>) -> Seq<CacheView> {
    s.map_values(|e: RecipientCacheEntry| cview(e))
}

/// Bounded recipient cache for received ciphertext plus eligible local keys.
#[derive(Debug)]
pub struct BoundedRecipientCache {
    capacity: usize,
    entries: Vec<RecipientCacheEntry>,
}

impl BoundedRecipientCache {
    pub closed spec fn wf(&self) -> bool {
        &&& self.capacity >= 1
        &&& self.entries@.len() <= self.capacity
        &&& ids_sorted(self.entries@)
    }

    /// How many entries the cache keeps.
    pub closed spec fn cap(&self) -> nat {
        self.capacity as nat
    }

    /// Cached entries in message-id order.
    pub closed spec fn cached(&self) -> Seq<CacheView> {
        cvs(self.entries@)
    }

    /// Cached entries as a set.
    pub open spec fn entry_set(&self) -> Set<CacheView> {
        self.cached().to_set()
    }

    /// Create a bounded cache. A zero capacity is normalized to one.
    pub fn new(capacity: usize) -> (r: Self)
        ensures
            r.wf(),
            r.cap() == if capacity == 0 { 1 } else { capacity as nat },
            r.cached().len() == 0,
    {
        BoundedRecipientCache { capacity: if capacity == 0 { 1 } else { capacity }, entries: Vec::new() }
    }

    proof fn lemma_ids_unique(&self)
        requires
            self.wf(),
        ensures
            forall|i: int, j: int| 0 <= i < self.entries@.len() && 0 <= j < self.entries@.len() && i != j
                ==> #[trigger] self.entries@[i].message_id@ != #[trigger] self.entries@[j].message_id@,
            self.cached().len() == self.entries@.len(),
            forall|i: int| 0 <= i < self.entries@.len() ==> #[trigger] self.cached()[i] == cview(self.entries@[i]),
    {
        assert forall|i: int, j: int| 0 <= i < self.entries@.len() && 0 <= j < self.entries@.len() && i != j
            implies #[trigger] self.entries@[i].message_id@ != #[trigger] self.entries@[j].message_id@ by {
            if i < j {
                lemma_lt_trichotomy(self.entries@[i].message_id@, self.entries@[j].message_id@);
            } else {
                lemma_lt_trichotomy(self.entries@[j].message_id@, self.entries@[i].message_id@);
            }
        }
    }

    /// Index of the entry for `id`, if cached.
    fn find(&self, id: &str) -> (r: Option<usize>)
        requires
            self.wf(),
        ensures
            match r {
                Some(i) => i < self.entries@.len() && self.entries@[i as int].message_id@ == id@,
                None => forall|i: int| 0 <= i < self.entries@.len() ==> #[trigger] self.entries@[i].message_id@ != id@,
            },
    {
        let n = self.entries.len();
        let mut i: usize = 0;
        while i < n
            invariant
                n == self.entries@.len(),
                i <= n,
                forall|j: int| 0 <= j < i ==> #[trigger] self.entries@[j].message_id@ != id@,
            decreases n - i,
        {
            if str_equal(self.entries[i].message_id.as_str(), id) {
                return Some(i);
            }
            i = i + 1;
        }
        None
    }

    /// Get a cached entry.
    pub fn get(&self, message_id: &str) -> (r: Option<&RecipientCacheEntry>)
        requires
            self.wf(),
        ensures
            match r {
                Some(e) => e.message_id@ == message_id@ && self.entry_set().contains(cview(*e)),
                None => forall|x: CacheView| #[trigger] self.entry_set().contains(x) ==> x.0 != message_id@,
            },
    {
        proof {
            self.lemma_ids_unique();
        }
        match self.find(message_id) {
            Some(i) => {
                proof {
                    assert(self.cached()[i as int] == cview(self.entries@[i as int]));
                }
                Some(&self.entries[i])
            },
            None => {
                proof {
                    assert forall|x: CacheView| #[trigger] self.entry_set().contains(x) implies x.0 != message_id@ by {
                        let k = choose|k: int| 0 <= k < self.cached().len() && self.cached()[k] == x;
                        assert(self.cached()[k] == cview(self.entries@[k]));
                    }
                }
                None
            },
        }
    }

    fn upsert_sorted(&mut self, entry: RecipientCacheEntry)
        requires
            old(self).wf(),
        ensures
            ids_sorted(final(self).entries@),
            final(self).capacity == old(self).capacity,
            final(self).entries@.len() <= old(self).entries@.len() + 1,
            cvs(final(self).entries@).to_set() == upsert(cvs(old(self).entries@).to_set(), cview(entry)),
    {
        let ghost s0 = self.entries@;
        let ghost e = cview(entry);
        proof {
            self.lemma_ids_unique();
        }
        let n = self.entries.len();
        let mut i: usize = 0;
        while i < n && str_lt(self.entries[i].message_id.as_str(), entry.message_id.as_str())
            invariant
                n == self.entries@.len(),
                i <= n,
                self.entries@ == s0,
                forall|j: int| 0 <= j < i ==> seq_lt(#[trigger] self.entries@[j].message_id@, entry.message_id@),
            decreases n - i,
        {
            i = i + 1;
        }
        let replace = i < n && str_equal(self.entries[i].message_id.as_str(), entry.message_id.as_str());
        proof {
            assert forall|j: int| i <= j < s0.len() && !(replace && j == i) implies seq_lt(entry.message_id@, #[trigger] s0[j].message_id@) by {
                lemma_lt_trichotomy(s0[i as int].message_id@, entry.message_id@);
                if j > i {
                    lemma_lt_trichotomy(s0[i as int].message_id@, s0[j].message_id@);
                    if seq_lt(entry.message_id@, s0[i as int].message_id@) {
                        lemma_lt_transitive(entry.message_id@, s0[i as int].message_id@, s0[j].message_id@);
                    }
                }
            }
        }
        if replace {
            self.entries.set(i, entry);
        } else {
            self.entries.insert(i, entry);
        }
        let ghost s1 = self.entries@;
        proof {
            assert forall|a: int, b: int| 0 <= a < b < s1.len() implies seq_lt(#[trigger] s1[a].message_id@, #[trigger] s1[b].message_id@) by {
                if replace {
                    if a == i {
                        assert(s1[b] == s0[b]);
                    } else if b == i {
                        assert(s1[a] == s0[a]);
                    } else {
                        assert(s1[a] == s0[a] && s1[b] == s0[b]);
                    }
                } else {
                    if b < i {
                        assert(s1[a] == s0[a] && s1[b] == s0[b]);
                    } else if b == i {
                        assert(s1[a] == s0[a]);
                    } else if a < i {
                        assert(s1[a] == s0[a] && s1[b] == s0[b - 1]);
                        lemma_lt_transitive(s0[a].message_id@, entry.message_id@, s0[b - 1].message_id@);
                    } else if a == i {
                        assert(s1[b] == s0[b - 1]);
                    } else {
                        assert(s1[a] == s0[a - 1] && s1[b] == s0[b - 1]);
                    }
                }
            }
            assert forall|k: int| 0 <= k < s0.len() && !(replace && k == i) implies #[trigger] s0[k].message_id@ != entry.message_id@ by {
                if k < i {
                    lemma_lt_trichotomy(s0[k].message_id@, entry.message_id@);
                } else {
                    lemma_lt_trichotomy(entry.message_id@, s0[k].message_id@);
                }
            }
            let up = upsert(cvs(s0).to_set(), e);
            assert(cvs(s1).to_set() =~= up) by {
                assert forall|x: CacheView| cvs(s1).to_set().contains(x) == up.contains(x) by {
                    if cvs(s1).contains(x) {
                        let k = choose|k: int| 0 <= k < cvs(s1).len() && cvs(s1)[k] == x;
                        if replace {
                            if k != i {
                                assert(s1[k] == s0[k]);
                                assert(cvs(s0)[k] == x);
                                assert(s0[k].message_id@ != entry.message_id@);
                                assert(cvs(s0).to_set().contains(x));
                            }
                        } else if k < i {
                            assert(cvs(s0)[k] == x);
                            assert(s0[k].message_id@ != entry.message_id@);
                            assert(cvs(s0).to_set().contains(x));
                        } else if k > i {
                            assert(cvs(s0)[k - 1] == x);
                            assert(s0[k - 1].message_id@ != entry.message_id@);
                            assert(cvs(s0).to_set().contains(x));
                        }
                    }
                    if up.contains(x) && x != e {
                        assert(cvs(s0).to_set().contains(x) && x.0 != e.0);
                        let k = choose|k: int| 0 <= k < cvs(s0).len() && cvs(s0)[k] == x;
                        if replace {
                            assert(k != i);
                            assert(cvs(s1)[k] == x);
                        } else if k < i {
                            assert(cvs(s1)[k] == x);
                        } else {
                            assert(cvs(s1)[k + 1] == x);
                        }
                    }
                    if x == e {
                        assert(cvs(s1)[i as int] == x);
                    }
                }
            }
        }
    }

    fn evict_oldest(&mut self)
        requires
            ids_sorted(old(self).entries@),
            old(self).entries@.len() >= 1,
        ensures
            ids_sorted(final(self).entries@),
            final(self).capacity == old(self).capacity,
            final(self).entries@.len() == old(self).entries@.len() - 1,
            exists|x: CacheView| #[trigger] is_oldest(cvs(old(self).entries@).to_set(), x)
                && cvs(final(self).entries@).to_set() == cvs(old(self).entries@).to_set().remove(x),
    {
        let ghost s1 = self.entries@;
        let m = self.entries.len();
        let mut best: usize = 0;
        let mut k: usize = 1;
        while k < m
            invariant
                m == self.entries@.len(),
                self.entries@ == s1,
                1 <= k <= m,
                best < k,
                forall|j: int| 0 <= j < k && j != best ==> older(cview(#[trigger] s1[best as int]), cview(s1[j])),
                ids_sorted(s1),
            decreases m - k,
        {
            let a = &self.entries[k];
            let b = &self.entries[best];
            let take = a.received_at_ms < b.received_at_ms || (a.received_at_ms == b.received_at_ms
                && str_lt(a.message_id.as_str(), b.message_id.as_str()));
            proof {
                if best < k {
                    assert(seq_lt(s1[best as int].message_id@, s1[k as int].message_id@));
                    lemma_lt_trichotomy(s1[best as int].message_id@, s1[k as int].message_id@);
                }
            }
            if take {
                proof {
                    assert forall|j: int| 0 <= j < k + 1 && j != k implies older(cview(#[trigger] s1[k as int]), cview(s1[j])) by {
                        if j != best {
                            let x = cview(s1[k as int]);
                            let y = cview(s1[best as int]);
                            let z = cview(s1[j]);
                            if x.3 == y.3 && y.3 == z.3 && seq_lt(x.0, y.0) && seq_lt(y.0, z.0) {
                                lemma_lt_transitive(x.0, y.0, z.0);
                            }
                        }
                    }
                }
                best = k;
            }
            k = k + 1;
        }
        self.entries.remove(best);
        proof {
            let s2 = self.entries@;
            let up = cvs(s1).to_set();
            let x = cview(s1[best as int]);
            assert(cvs(s1)[best as int] == x);
            assert forall|y: CacheView| #[trigger] up.contains(y) && y != x implies older(x, y) by {
                let j = choose|j: int| 0 <= j < cvs(s1).len() && cvs(s1)[j] == y;
                assert(cvs(s1)[j] == cview(s1[j]));
            }
            assert(is_oldest(up, x));
            assert forall|a: int, b: int| 0 <= a < b < s2.len() implies seq_lt(#[trigger] s2[a].message_id@, #[trigger] s2[b].message_id@) by {
                if a >= best {
                    assert(s2[a] == s1[a + 1] && s2[b] == s1[b + 1]);
                } else if b >= best {
                    assert(s2[a] == s1[a] && s2[b] == s1[b + 1]);
                } else {
                    assert(s2[a] == s1[a] && s2[b] == s1[b]);
                }
            }
            assert(cvs(s2).to_set() =~= up.remove(x)) by {
                assert forall|y: CacheView| cvs(s2).to_set().contains(y) == up.remove(x).contains(y) by {
                    if cvs(s2).contains(y) {
                        let j = choose|j: int| 0 <= j < cvs(s2).len() && cvs(s2)[j] == y;
                        let jj = if j < best { j } else { j + 1 };
                        assert(s2[j] == s1[jj]);
                        assert(cvs(s1)[jj] == y);
                        assert(s1[jj].message_id@ != s1[best as int].message_id@) by {
                            if jj < best {
                                lemma_lt_trichotomy(s1[jj].message_id@, s1[best as int].message_id@);
                            } else {
                                lemma_lt_trichotomy(s1[best as int].message_id@, s1[jj].message_id@);
                            }
                        }
                    }
                    if up.remove(x).contains(y) {
                        let j = choose|j: int| 0 <= j < cvs(s1).len() && cvs(s1)[j] == y;
                        assert(j != best);
                        if j < best {
                            assert(cvs(s2)[j] == y);
                        } else {
                            assert(cvs(s2)[j - 1] == y);
                        }
                    }
                }
            }
        }
    }

    /// Insert an entry and evict the oldest deterministic entries above capacity.
    pub fn insert(&mut self, entry: RecipientCacheEntry)
        requires
            old(self).wf(),
        ensures
            final(self).wf(),
            final(self).cap() == old(self).cap(),
            upsert(old(self).entry_set(), cview(entry)).len() <= old(self).cap() ==> final(self).entry_set()
                == upsert(old(self).entry_set(), cview(entry)),
            upsert(old(self).entry_set(), cview(entry)).len() > old(self).cap() ==> exists|x: CacheView|
                #[trigger] is_oldest(upsert(old(self).entry_set(), cview(entry)), x) && final(self).entry_set()
                    == upsert(old(self).entry_set(), cview(entry)).remove(x),
    {
        self.upsert_sorted(entry);
        proof {
            lemma_sorted_distinct(self.entries@);
            lemma_distinct_views_len(self.entries@);
        }
        if self.entries.len() > self.capacity {
            self.evict_oldest();
        }
    }

    /// Mark one message as shredded, dropping any cached content-key bytes.
    pub fn shred(&mut self, message_id: &str) -> (found: bool)
        requires
            old(self).wf(),
        ensures
            final(self).wf(),
            final(self).cap() == old(self).cap(),
            found == exists|x: CacheView| #[trigger] old(self).entry_set().contains(x) && x.0 == message_id@,
            final(self).entry_set() == old(self).entry_set().map(
                |x: CacheView| if x.0 == message_id@ { shredded(x) } else { x },
            ),
    {
        proof {
            self.lemma_ids_unique();
        }
        let ghost s0 = self.entries@;
        let ghost f = |x: CacheView| if x.0 == message_id@ { shredded(x) } else { x };
        match self.find(message_id) {
            None => {
                proof {
                    assert(cvs(s0).to_set().map(f) =~= cvs(s0).to_set()) by {
                        assert forall|y: CacheView| cvs(s0).to_set().map(f).contains(y) == cvs(s0).to_set().contains(y) by {
                            if cvs(s0).to_set().contains(y) {
                                let k = choose|k: int| 0 <= k < cvs(s0).len() && cvs(s0)[k] == y;
                                assert(s0[k].message_id@ != message_id@);
                                assert(f(y) == y);
                            }
                            if cvs(s0).to_set().map(f).contains(y) {
                                let x = choose|x: CacheView| cvs(s0).to_set().contains(x) && f(x) == y;
                                let k = choose|k: int| 0 <= k < cvs(s0).len() && cvs(s0)[k] == x;
                                assert(s0[k].message_id@ != message_id@);
                            }
                        }
                    }
                    assert forall|x: CacheView| #[trigger] cvs(s0).to_set().contains(x) implies x.0 != message_id@ by {
                        let k = choose|k: int| 0 <= k < cvs(s0).len() && cvs(s0)[k] == x;
                        assert(s0[k].message_id@ != message_id@);
                    }
                }
                false
            },
            Some(i) => {
                let old_entry = self.entries.remove(i);
                let updated = RecipientCacheEntry {
                    message_id: old_entry.message_id,
                    ciphertext: old_entry.ciphertext,
                    key_state: KeyState::Shredded,
                    received_at_ms: old_entry.received_at_ms,
                };
                self.entries.insert(i, updated);
                proof {
                    let s1 = self.entries@;
                    assert(s1 =~= s0.update(i as int, s1[i as int]));
                    assert(cview(s1[i as int]) == shredded(cview(s0[i as int])));
                    assert forall|a: int, b: int| 0 <= a < b < s1.len() implies seq_lt(#[trigger] s1[a].message_id@, #[trigger] s1[b].message_id@) by {
                        assert(s1[a].message_id@ == s0[a].message_id@);
                        assert(s1[b].message_id@ == s0[b].message_id@);
                    }
                    assert(cvs(s0)[i as int] == cview(s0[i as int]));
                    assert(cvs(s1).to_set() =~= cvs(s0).to_set().map(f)) by {
                        assert forall|y: CacheView| cvs(s1).to_set().contains(y) == cvs(s0).to_set().map(f).contains(y) by {
                            if cvs(s1).to_set().contains(y) {
                                let k = choose|k: int| 0 <= k < cvs(s1).len() && cvs(s1)[k] == y;
                                assert(cvs(s0)[k] == cview(s0[k]));
                                if k == i {
                                    assert(f(cvs(s0)[k]) == y);
                                } else {
                                    assert(s0[k].message_id@ != message_id@);
                                    assert(f(cvs(s0)[k]) == y);
                                }
                                assert(cvs(s0).to_set().contains(cvs(s0)[k]));
                            }
                            if cvs(s0).to_set().map(f).contains(y) {
                                let x = choose|x: CacheView| cvs(s0).to_set().contains(x) && f(x) == y;
                                let k = choose|k: int| 0 <= k < cvs(s0).len() && cvs(s0)[k] == x;
                                assert(cvs(s0)[k] == cview(s0[k]));
                                if k != i {
                                    assert(s0[k].message_id@ != message_id@);
                                }
                                assert(cvs(s1)[k] == y);
                            }
                        }
                    }
                    assert(cvs(s0).to_set().contains(cvs(s0)[i as int]));
                    assert(old(self).entry_set().contains(cvs(s0)[i as int]) && cvs(s0)[i as int].0 == message_id@);
                }
                true
            },
        }
    }

    /// Harness decrypt boundary: only cached keys may decrypt local ciphertext.
    ///
    /// This models the storage fail-closed contract rather than production text
    /// crypto. Once a key is locked or shredded, callers cannot get plaintext here.
    pub fn decrypt_for_harness(&self, message_id: &str) -> (r: Result<Vec<u8>, LocalDecryptError>)
        requires
            self.wf(),
        ensures
            (forall|x: CacheView| #[trigger] self.entry_set().contains(x) ==> x.0 != message_id@) ==> (r matches Err(
                LocalDecryptError::Missing(m),
            ) && m@ == message_id@),
            forall|x: CacheView| #[trigger] self.entry_set().contains(x) && x.0 == message_id@ ==> match x.2 {
                KeyState::Cached(key) => r matches Ok(p) && p@ == xor_spec(x.1, key@),
                KeyState::Shredded => r matches Err(LocalDecryptError::Shredded(m)) && m@ == message_id@,
                KeyState::Locked => r matches Err(LocalDecryptError::Locked(m)) && m@ == message_id@,
                _ => r matches Err(LocalDecryptError::Unavailable(m)) && m@ == message_id@,
            },
    {
        proof {
            self.lemma_ids_unique();
        }
        match self.find(message_id) {
            None => {
                proof {
                    assert forall|x: CacheView| #[trigger] self.entry_set().contains(x) implies x.0 != message_id@ by {
                        let k = choose|k: int| 0 <= k < self.cached().len() && self.cached()[k] == x;
                        assert(self.cached()[k] == cview(self.entries@[k]));
                    }
                }
                Err(LocalDecryptError::Missing(String::from_str(message_id)))
            },
            Some(i) => {
                let entry = &self.entries[i];
                proof {
                    assert(self.cached()[i as int] == cview(self.entries@[i as int]));
                    assert(self.entry_set().contains(cview(*entry)));
                    assert forall|x: CacheView| #[trigger] self.entry_set().contains(x) && x.0 == message_id@ implies x == cview(*entry) by {
                        let k = choose|k: int| 0 <= k < self.cached().len() && self.cached()[k] == x;
                        assert(self.cached()[k] == cview(self.entries@[k]));
                    }
                }
                match entry.key_state {
                    KeyState::Cached(key) => Ok(xor_harness_ciphertext(entry.ciphertext.as_slice(), &key)),
                    KeyState::Shredded => Err(LocalDecryptError::Shredded(String::from_str(message_id))),
                    KeyState::Locked => Err(LocalDecryptError::Locked(String::from_str(message_id))),
                    _ => Err(LocalDecryptError::Unavailable(String::from_str(message_id))),
                }
            },
        }
    }

    /// Same capacity and the same entries.
    pub open spec fn same(&self, other: BoundedRecipientCache) -> bool {
        self.cap() == other.cap() && self.cached() == other.cached()
    }

    /// A copy with the same capacity and entries.
    pub fn duplicate(&self) -> (r: Self)
        requires
            self.wf(),
        ensures
            r.wf(),
            r.same(*self),
    {
        let mut out: Vec<RecipientCacheEntry> = Vec::new();
        let n = self.entries.len();
        let mut i: usize = 0;
        while i < n
            invariant
                n == self.entries@.len(),
                i <= n,
                out@.len() == i,
                forall|k: int| 0 <= k < i ==> #[trigger] cview(out@[k]) == cview(self.entries@[k]),
            decreases n - i,
        {
            out.push(self.entries[i].clone());
            i = i + 1;
        }
        let r = BoundedRecipientCache { capacity: self.capacity, entries: out };
        proof {
            assert(cvs(out@) =~= cvs(self.entries@));
            assert forall|a: int, b: int| 0 <= a < b < out@.len() implies seq_lt(#[trigger] out@[a].message_id@, #[trigger] out@[b].message_id@) by {
                assert(cview(out@[a]) == cview(self.entries@[a]));
                assert(cview(out@[b]) == cview(self.entries@[b]));
            }
        }
        r
    }

    /// Cache size.
    pub fn len(&self) -> (n: usize)
        requires
            self.wf(),
        ensures
            n == self.entry_set().len(),
            n <= self.cap(),
    {
        proof {
            self.lemma_ids_unique();
            lemma_distinct_views_len(self.entries@);
        }
        self.entries.len()
    }

    /// A cache never holds more entries than its capacity.
    pub proof fn law_cache_within_capacity(c: BoundedRecipientCache)
        requires
            c.wf(),
        ensures
            c.entry_set().len() <= c.cap(),
    {
        c.lemma_ids_unique();
        lemma_distinct_views_len(c.entries@);
    }

    /// True when cache is empty.
    pub fn is_empty(&self) -> (b: bool)
        requires
            self.wf(),
        ensures
            b == (self.entry_set().len() == 0),
    {
        self.len() == 0
    }

    /// Cached message ids in order.
    pub fn ids(&self) -> (r: Vec<String>)
        requires
            self.wf(),
        ensures
            r@.len() == self.cached().len(),
            forall|i: int| 0 <= i < r@.len() ==> #[trigger] r@[i]@ == self.cached()[i].0,
            forall|i: int, j: int| 0 <= i < j < r@.len() ==> seq_lt(#[trigger] r@[i]@, #[trigger] r@[j]@),
    {
        let mut r: Vec<String> = Vec::new();
        let n = self.entries.len();
        let mut i: usize = 0;
        while i < n
            invariant
                n == self.entries@.len(),
                i <= n,
                r@.len() == i,
                ids_sorted(self.entries@),
                forall|j: int| 0 <= j < i ==> #[trigger] r@[j]@ == self.entries@[j].message_id@,
            decreases n - i,
        {
            r.push(self.entries[i].message_id.clone());
            i = i + 1;
        }
        r
    }
}

proof fn lemma_sorted_distinct(s: Seq<RecipientCacheEntry>)
    requires
        ids_sorted(s),
    ensures
        forall|i: int, j: int| 0 <= i < s.len() && 0 <= j < s.len() && i != j ==> #[trigger] s[i].message_id@ != #[trigger] s[j].message_id@,
{
    assert forall|i: int, j: int| 0 <= i < s.len() && 0 <= j < s.len() && i != j implies #[trigger] s[i].message_id@ != #[trigger] s[j].message_id@ by {
        if i < j {
            lemma_lt_trichotomy(s[i].message_id@, s[j].message_id@);
        } else {
            lemma_lt_trichotomy(s[j].message_id@, s[i].message_id@);
        }
    }
}

proof fn lemma_distinct_views_len(s: Seq<RecipientCacheEntry>)
    requires
        forall|i: int, j: int| 0 <= i < s.len() && 0 <= j < s.len() && i != j ==> #[trigger] s[i].message_id@ != #[trigger] s[j].message_id@,
    ensures
        cvs(s).to_set().len() == s.len(),
{
    assert(cvs(s).no_duplicates()) by {
        assert forall|i: int, j: int| 0 <= i < cvs(s).len() && 0 <= j < cvs(s).len() && i != j implies cvs(s)[i] != cvs(s)[j] by {
            assert(s[i].message_id@ != s[j].message_id@);
        }
    }
    cvs(s).unique_seq_to_set();
}

fn xor_harness_ciphertext(ciphertext: &[u8], key: &[u8; 32]) -> (r: Vec<u8>)
    ensures
        r@ == xor_spec(ciphertext@, key@),
{
    let mut out: Vec<u8> = Vec::new();
    let n = ciphertext.len();
    let mut i: usize = 0;
    while i < n
        invariant
            n == ciphertext@.len(),
            i <= n,
            out@.len() == i,
            key@.len() == 32,
            forall|j: int| 0 <= j < i ==> #[trigger] out@[j] == ciphertext@[j] ^ key@[j % 32],
        decreases n - i,
    {
        out.push(ciphertext[i] ^ key[i % 32]);
        i = i + 1;
    }
    assert(out@ =~= xor_spec(ciphertext@, key@));
    out
}

impl Default for BoundedRecipientCache {
    fn default() -> (r: Self)
        ensures
            r.wf(),
            r.cap() == 256,
            r.cached().len() == 0,
    {
        Self::new(256)
    }
}

} // verus!
