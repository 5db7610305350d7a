//! In-memory local store: append-only author logs, the bounded recipient
//! cache, and cooperative-shred tombstones.
use vstd::prelude::*;
use crate::author_log::{
    evs, eview, insert_fault, key_less, key_lt, kview, lemma_key_lt_transitive, lemma_key_lt_trichotomy,
    lemma_merge_error_sticks, log_valid, merge_spec, reports_fault, same_entry, same_key, id_taken, key_taken,
    AuthorLogAppendOutcome, AuthorLogEntry, AuthorLogError, AuthorLogFault, AuthorLogMergeReport, EntryView,
};
use crate::order::{seq_lt, str_lt, lemma_lt_transitive, lemma_lt_trichotomy};
use crate::recipient_cache::{
    cview, is_oldest, shredded, upsert, xor_spec, BoundedRecipientCache, CacheView, KeyState, LocalDecryptError,
    RecipientCacheEntry,
};
use crate::text::{all_ws, only_ws, str_equal};
use crate::text_set::{insert_sorted_unique, string_set, strings_sorted};

verus! {

/// Positions strictly increase.
pub open spec fn log_sorted(s: Seq<AuthorLogEntry>) -> bool {
    forall|i: int, j: int| 0 <= i < j < s.len() ==> key_lt(kview(eview(#[trigger] s[i])), kview(eview(#[trigger] s[j])))
}

/// The largest sequence logged for one author/device branch, 0 when none.
pub open spec fn branch_max(s: Seq<EntryView>, author_leaf: u32, device_id: Seq<char>) -> u64
    decreases s.len(),
{
    if s.len() == 0 {
        0
    } else {
        let m = branch_max(s.drop_last(), author_leaf, device_id);
        let e = s.last();
        if e.0 == author_leaf && e.1 == device_id && e.2 > m {
            e.2
        } else {
            m
        }
    }
}

/// What the cache stores for a received entry: its key is shredded when the
/// message already has a tombstone.
pub open spec fn stored_view(tombstones: Set<Seq<char>>, e: CacheView) -> CacheView {
    if tombstones.contains(e.0) {
        shredded(e)
    } else {
        e
    }
}

/// Entries of one author.
pub open spec fn by_author(author_leaf: u32) -> spec_fn(EntryView) -> bool {
    |x: EntryView| x.0 == author_leaf
}

/// In-memory local store for deterministic harnesses.
#[derive(Debug)]
pub struct LocalStore {
    author_log: Vec<AuthorLogEntry>,
    recipient_cache: BoundedRecipientCache,
    message_tombstones: Vec<String>,
}

impl LocalStore {
    pub closed spec fn wf(&self) -> bool {
        &&& log_sorted(self.author_log@)
        &&& log_valid(self.log())
        &&& self.recipient_cache.wf()
        &&& strings_sorted(self.message_tombstones@)
    }

    /// Logged entries in position order.
    pub closed spec fn log_seq(&self) -> Seq<EntryView> {
        evs(self.author_log@)
    }

    /// Logged entries as a set.
    pub open spec fn log(&self) -> Set<EntryView> {
        self.log_seq().to_set()
    }

    /// The recipient cache.
    pub closed spec fn cache(&self) -> BoundedRecipientCache {
        self.recipient_cache
    }

    /// Message ids with a cooperative-shred tombstone.
    pub closed spec fn tombstones(&self) -> Set<Seq<char>> {
        string_set(self.message_tombstones@)
    }

    /// A valid store satisfies the author-log invariants.
    pub proof fn lemma_log_valid(&self)
        requires
            self.wf(),
        ensures
            log_valid(self.log()),
            self.cache().wf(),
    {
    }

    /// Create a store with a bounded recipient cache.
    pub fn with_recipient_cache_capacity(capacity: usize) -> (r: Self)
        ensures
            r.wf(),
            r.log() == Set::<EntryView>::empty(),
            r.tombstones() == Set::<Seq<char>>::empty(),
            r.cache().cap() == if capacity == 0 { 1 } else { capacity as nat },
            r.cache().entry_set() == Set::<CacheView>::empty(),
    {
        let r = LocalStore {
            author_log: Vec::new(),
            recipient_cache: BoundedRecipientCache::new(capacity),
            message_tombstones: Vec::new(),
        };
        assert(r.log() =~= Set::<EntryView>::empty());
        assert(r.tombstones() =~= Set::<Seq<char>>::empty());
        assert(r.cache().entry_set() =~= Set::<CacheView>::empty());
        r
    }

    proof fn lemma_log_index(&self, x: EntryView) -> (k: int)
        requires
            self.log().contains(x),
        ensures
            0 <= k < self.author_log@.len(),
            eview(self.author_log@[k]) == x,
    {
        let k = choose|k: int| 0 <= k < self.log_seq().len() && self.log_seq()[k] == x;
        assert(self.log_seq()[k] == eview(self.author_log@[k]));
        k
    }

    proof fn lemma_in_log(&self, k: int)
        requires
            0 <= k < self.author_log@.len(),
        ensures
            self.log().contains(eview(self.author_log@[k])),
    {
        assert(self.log_seq()[k] == eview(self.author_log@[k]));
    }

    fn insert_author_log_entry(&mut self, entry: AuthorLogEntry) -> (r: Result<AuthorLogAppendOutcome, AuthorLogError>)
        requires
            old(self).wf(),
        ensures
            final(self).wf(),
            final(self).cache() == old(self).cache(),
            final(self).tombstones() == old(self).tombstones(),
            match insert_fault(old(self).log(), eview(entry)) {
                Some(f) => reports_fault(r, f) && final(self).log() == old(self).log(),
                None => if old(self).log().contains(eview(entry)) {
                    r matches Ok(AuthorLogAppendOutcome::Duplicate) && final(self).log() == old(self).log()
                } else {
                    r matches Ok(AuthorLogAppendOutcome::Inserted) && final(self).log() == old(self).log().insert(
                        eview(entry),
                    )
                },
            },
    {
        let ghost e = eview(entry);
        let ghost s = self.author_log@;
        if only_ws(entry.device_id.as_str()) {
            return Err(AuthorLogError::EmptyDeviceId);
        }
        if only_ws(entry.message_id.as_str()) {
            return Err(AuthorLogError::EmptyMessageId);
        }
        let n = self.author_log.len();
        let mut i: usize = 0;
        while i < n && key_less(&self.author_log[i], &entry)
            invariant
                n == self.author_log@.len(),
                self.author_log@ == s,
                e == eview(entry),
                i <= n,
                forall|j: int| 0 <= j < i ==> key_lt(kview(eview(#[trigger] s[j])), kview(e)),
            decreases n - i,
        {
            i = i + 1;
        }
        if i < n && same_key(&self.author_log[i], &entry) {
            proof {
                self.lemma_in_log(i as int);
                assert(key_taken(self.log(), kview(e)));
            }
            if same_entry(&self.author_log[i], &entry) {
                return Ok(AuthorLogAppendOutcome::Duplicate);
            }
            proof {
                if self.log().contains(e) {
                    let k = self.lemma_log_index(e);
                    if k < i {
                        lemma_key_lt_trichotomy(kview(eview(s[k])), kview(e));
                    } else if k > i {
                        lemma_key_lt_trichotomy(kview(eview(s[i as int])), kview(eview(s[k])));
                    }
                }
            }
            return Err(AuthorLogError::SequenceFork {
                author_leaf: entry.author_leaf,
                device_id: entry.device_id,
                sequence: entry.sequence,
            });
        }
        proof {
            if i < n {
                lemma_key_lt_trichotomy(kview(eview(s[i as int])), kview(e));
            }
            assert forall|j: int| i <= j < s.len() implies key_lt(kview(e), kview(eview(#[trigger] s[j]))) by {
                if j > i {
                    lemma_key_lt_transitive(kview(e), kview(eview(s[i as int])), kview(eview(s[j])));
                }
            }
            assert(!key_taken(self.log(), kview(e))) by {
                if key_taken(self.log(), kview(e)) {
                    let x = choose|x: EntryView| self.log().contains(x) && kview(x) == kview(e);
                    let k = self.lemma_log_index(x);
                    lemma_key_lt_trichotomy(kview(eview(s[k])), kview(e));
                }
            }
            assert(!self.log().contains(e));
        }
        let mut j: usize = 0;
        while j < n
            invariant
                n == self.author_log@.len(),
                self.author_log@ == s,
                e == eview(entry),
                j <= n,
                self.wf(),
                self.log() == old(self).log(),
                self.cache() == old(self).cache(),
                self.tombstones() == old(self).tombstones(),
                !all_ws(e.1),
                !all_ws(e.4),
                !key_taken(self.log(), kview(e)),
                !self.log().contains(e),
                forall|k: int| 0 <= k < j ==> #[trigger] s[k].message_id@ != e.4,
            decreases n - j,
        {
            if str_equal(self.author_log[j].message_id.as_str(), entry.message_id.as_str()) {
                proof {
                    self.lemma_in_log(j as int);
                    assert(id_taken(self.log(), e.4));
                }
                return Err(AuthorLogError::MessageIdReused { message_id: entry.message_id });
            }
            j = j + 1;
        }
        proof {
            assert(!id_taken(self.log(), e.4)) by {
                if id_taken(self.log(), e.4) {
                    let x = choose|x: EntryView| self.log().contains(x) && x.4 == e.4;
                    let k = self.lemma_log_index(x);
                }
            }
        }
        let ghost old_log = self.log();
        self.author_log.insert(i, entry);
        proof {
            let t = self.author_log@;
            assert(t =~= s.insert(i as int, entry));
            assert forall|a: int, b: int| 0 <= a < b < t.len() implies key_lt(kview(eview(#[trigger] t[a])), kview(eview(#[trigger] t[b]))) by {
                if b < i {
                    assert(t[a] == s[a] && t[b] == s[b]);
                } else if b == i {
                    assert(t[a] == s[a]);
                } else if a < i {
                    assert(t[a] == s[a] && t[b] == s[b - 1]);
                    lemma_key_lt_transitive(kview(eview(s[a])), kview(e), kview(eview(s[b - 1])));
                } else if a == i {
                    assert(t[b] == s[b - 1]);
                } else {
                    assert(t[a] == s[a - 1] && t[b] == s[b - 1]);
                }
            }
            assert(evs(t).to_set() =~= old_log.insert(e)) by {
                assert forall|v: EntryView| evs(t).to_set().contains(v) == old_log.insert(e).contains(v) by {
                    if evs(t).contains(v) {
                        let k = choose|k: int| 0 <= k < evs(t).len() && evs(t)[k] == v;
                        if k < i {
                            assert(evs(s)[k] == v);
                        } else if k > i {
                            assert(evs(s)[k - 1] == v);
                        }
                    }
                    if evs(s).contains(v) {
                        let k = choose|k: int| 0 <= k < evs(s).len() && evs(s)[k] == v;
                        if k < i {
                            assert(evs(t)[k] == v);
                        } else {
                            assert(evs(t)[k + 1] == v);
                        }
                    }
                    if v == e {
                        assert(evs(t)[i as int] == v);
                    }
                }
            }
            assert(log_valid(self.log()));
        }
        Ok(AuthorLogAppendOutcome::Inserted)
    }

    /// Append an authoritative sent message for its author.
    pub fn append_sent(&mut self, entry: AuthorLogEntry) -> (r: Result<AuthorLogAppendOutcome, AuthorLogError>)
        requires
            old(self).wf(),
        ensures
            final(self).wf(),
            final(self).cache() == old(self).cache(),
            final(self).tombstones() == old(self).tombstones(),
            match insert_fault(old(self).log(), eview(entry)) {
                Some(f) => reports_fault(r, f) && final(self).log() == old(self).log(),
                None => if old(self).log().contains(eview(entry)) {
                    r matches Ok(AuthorLogAppendOutcome::Duplicate) && final(self).log() == old(self).log()
                } else {
                    r matches Ok(AuthorLogAppendOutcome::Inserted) && final(self).log() == old(self).log().insert(
                        eview(entry),
                    )
                },
            },
    {
        self.insert_author_log_entry(entry)
    }

    /// Merge received author-log entries from another own device or gossip peer.
    ///
    /// Entries are inserted in order; the first refusal stops the merge and
    /// leaves the entries inserted before it in place.
    pub fn merge_author_logs(&mut self, entries: Vec<AuthorLogEntry>) -> (r: Result<AuthorLogMergeReport, AuthorLogError>)
        requires
            old(self).wf(),
        ensures
            final(self).wf(),
            final(self).cache() == old(self).cache(),
            final(self).tombstones() == old(self).tombstones(),
            final(self).log() == merge_spec(old(self).log(), evs(entries@)).0,
            match merge_spec(old(self).log(), evs(entries@)).1 {
                Ok(counts) => r matches Ok(report) && report.inserted == counts.0 && report.duplicates == counts.1,
                Err(f) => reports_fault(r, f),
            },
    {
        let ghost all = evs(entries@);
        let ghost start = self.log();
        let n = entries.len();
        let mut inserted: usize = 0;
        let mut duplicates: usize = 0;
        let mut rest = entries;
        let mut i: usize = 0;
        assert(all.take(0) =~= Seq::<EntryView>::empty());
        while i < n
            invariant
                n == all.len(),
                all == evs(entries@),
                i <= n,
                evs(rest@) == all.skip(i as int),
                self.wf(),
                self.cache() == old(self).cache(),
                self.tombstones() == old(self).tombstones(),
                start == old(self).log(),
                merge_spec(start, all.take(i as int)) == (self.log(), Ok::<(nat, nat), AuthorLogFault>((inserted as nat, duplicates as nat))),
                inserted + duplicates == i,
            decreases n - i,
        {
            let ghost r0 = rest@;
            proof {
                assert(evs(r0).len() == r0.len());
                assert(evs(r0)[0] == eview(r0[0]));
            }
            let entry = rest.remove(0);
            proof {
                assert(eview(entry) == all[i as int]);
                assert(all.take(i + 1).drop_last() =~= all.take(i as int));
                assert(all.take(i + 1).last() == all[i as int]);
                assert(rest@ =~= r0.subrange(1, r0.len() as int));
                assert forall|k: int| 0 <= k < evs(rest@).len() implies #[trigger] evs(rest@)[k] == all.skip(i + 1)[k] by {
                    assert(evs(rest@)[k] == eview(r0[k + 1]));
                    assert(evs(r0)[k + 1] == all.skip(i as int)[k + 1]);
                }
                assert(evs(rest@) =~= all.skip(i + 1));
            }
            match self.insert_author_log_entry(entry) {
                Ok(AuthorLogAppendOutcome::Inserted) => {
                    inserted = inserted + 1;
                },
                Ok(AuthorLogAppendOutcome::Duplicate) => {
                    duplicates = duplicates + 1;
                },
                Err(error) => {
                    proof {
                        lemma_merge_error_sticks(start, all, i + 1);
                    }
                    return Err(error);
                },
            }
            i = i + 1;
        }
        assert(all.take(n as int) =~= all);
        Ok(AuthorLogMergeReport { inserted, duplicates })
    }

    fn duplicate(&self) -> (r: Self)
        requires
            self.wf(),
        ensures
            r.wf(),
            r.log() == self.log(),
            r.cache().same(self.cache()),
            r.tombstones() == self.tombstones(),
    {
        let mut log: Vec<AuthorLogEntry> = Vec::new();
        let n = self.author_log.len();
        let mut i: usize = 0;
        while i < n
            invariant
                n == self.author_log@.len(),
                i <= n,
                log@.len() == i,
                forall|k: int| 0 <= k < i ==> #[trigger] eview(log@[k]) == eview(self.author_log@[k]),
            decreases n - i,
        {
            log.push(self.author_log[i].clone());
            i = i + 1;
        }
        let mut tombs: Vec<String> = Vec::new();
        let m = self.message_tombstones.len();
        let mut j: usize = 0;
        while j < m
            invariant
                m == self.message_tombstones@.len(),
                j <= m,
                tombs@.len() == j,
                forall|k: int| 0 <= k < j ==> #[trigger] tombs@[k] == self.message_tombstones@[k],
            decreases m - j,
        {
            tombs.push(self.message_tombstones[j].clone());
            j = j + 1;
        }
        let cache = self.recipient_cache.duplicate();
        let r = LocalStore { author_log: log, recipient_cache: cache, message_tombstones: tombs };
        proof {
            assert(evs(log@) =~= evs(self.author_log@));
            assert(tombs@ =~= self.message_tombstones@);
            assert(log_sorted(log@)) by {
                assert forall|a: int, b: int| 0 <= a < b < log@.len() implies key_lt(kview(eview(#[trigger] log@[a])), kview(eview(#[trigger] log@[b]))) by {
                    assert(eview(log@[a]) == eview(self.author_log@[a]));
                    assert(eview(log@[b]) == eview(self.author_log@[b]));
                }
            }
        }
        r
    }

    /// Merge received author-log entries atomically.
    ///
    /// If any entry is refused, the store is left unchanged.
    pub fn merge_author_logs_atomic(&mut self, entries: Vec<AuthorLogEntry>) -> (r: Result<AuthorLogMergeReport, AuthorLogError>)
        requires
            old(self).wf(),
        ensures
            final(self).wf(),
            final(self).cache().same(old(self).cache()),
            final(self).tombstones() == old(self).tombstones(),
            match merge_spec(old(self).log(), evs(entries@)).1 {
                Ok(counts) => r matches Ok(report) && report.inserted == counts.0 && report.duplicates == counts.1
                    && final(self).log() == merge_spec(old(self).log(), evs(entries@)).0,
                Err(f) => reports_fault(r, f) && final(self).log() == old(self).log(),
            },
    {
        let mut candidate = self.duplicate();
        match candidate.merge_author_logs(entries) {
            Ok(report) => {
                *self = candidate;
                Ok(report)
            },
            Err(error) => Err(error),
        }
    }

    /// Ordered author-log snapshot.
    pub fn author_log_snapshot(&self) -> (r: Vec<AuthorLogEntry>)
        requires
            self.wf(),
        ensures
            evs(r@) == self.log_seq(),
    {
        let mut out: Vec<AuthorLogEntry> = Vec::new();
        let n = self.author_log.len();
        let mut i: usize = 0;
        while i < n
            invariant
                n == self.author_log@.len(),
                i <= n,
                out@.len() == i,
                forall|k: int| 0 <= k < i ==> #[trigger] eview(out@[k]) == eview(self.author_log@[k]),
            decreases n - i,
        {
            out.push(self.author_log[i].clone());
            i = i + 1;
        }
        assert(evs(out@) =~= self.log_seq());
        out
    }

    /// Ordered author-log snapshot for one author.
    pub fn author_log_for(&self, author_leaf: u32) -> (r: Vec<AuthorLogEntry>)
        requires
            self.wf(),
        ensures
            evs(r@) == self.log_seq().filter(by_author(author_leaf)),
    {
        let mut out: Vec<AuthorLogEntry> = Vec::new();
        let n = self.author_log.len();
        let mut i: usize = 0;
        while i < n
            invariant
                n == self.author_log@.len(),
                i <= n,
                evs(out@) == self.log_seq().take(i as int).filter(by_author(author_leaf)),
            decreases n - i,
        {
            let ghost s = self.log_seq();
            let ghost p = by_author(author_leaf);
            proof {
                assert(s.take(i + 1).drop_last() =~= s.take(i as int));
                assert(s[i as int] == eview(self.author_log@[i as int]));
                assert(s.take(i + 1).last() == s[i as int]);
                assert(s.take(i + 1) =~= s.take(i as int).push(s[i as int]));
                s.take(i as int).lemma_filter_push(s[i as int], p);
            }
            if self.author_log[i].author_leaf == author_leaf {
                let ghost before = out@;
                let c = self.author_log[i].clone();
                out.push(c);
                proof {
                    assert(out@ == before.push(c));
                    assert(evs(out@) =~= evs(before).push(eview(c)));
                }
            }
            i = i + 1;
        }
        assert(self.log_seq().take(n as int) =~= self.log_seq());
        out
    }

    /// Message ids in the author log, in position order; each id occurs once.
    pub fn ordered_author_message_ids(&self) -> (r: Vec<String>)
        requires
            self.wf(),
        ensures
            r@.len() == self.log_seq().len(),
            forall|i: int| 0 <= i < r@.len() ==> #[trigger] r@[i]@ == self.log_seq()[i].4,
    {
        let mut out: Vec<String> = Vec::new();
        let n = self.author_log.len();
        let mut i: usize = 0;
        while i < n
            invariant
                n == self.author_log@.len(),
                n == self.log_seq().len(),
                i <= n,
                out@.len() == i,
                forall|k: int| 0 <= k < i ==> #[trigger] out@[k]@ == self.log_seq()[k].4,
            decreases n - i,
        {
            proof {
                assert(self.log_seq()[i as int] == eview(self.author_log@[i as int]));
            }
            out.push(self.author_log[i].message_id.clone());
            i = i + 1;
        }
        out
    }

    /// The set of message ids in the author log.
    pub fn author_message_ids(&self) -> (r: Vec<String>)
        requires
            self.wf(),
        ensures
            string_set(r@) == self.log().map(|x: EntryView| x.4),
    {
        let r = self.ordered_author_message_ids();
        proof {
            let ids = r@.map_values(|x: String| x@);
            assert(ids =~= self.log_seq().map_values(|x: EntryView| x.4));
            assert(string_set(r@) =~= self.log().map(|x: EntryView| x.4)) by {
                assert forall|v: Seq<char>| string_set(r@).contains(v) == self.log().map(|x: EntryView| x.4).contains(v) by {
                    if ids.contains(v) {
                        let k = choose|k: int| 0 <= k < ids.len() && ids[k] == v;
                        assert(self.log_seq()[k].4 == v);
                        assert(self.log().contains(self.log_seq()[k]));
                    }
                    if self.log().map(|x: EntryView| x.4).contains(v) {
                        let x = choose|x: EntryView| self.log().contains(x) && x.4 == v;
                        let k = choose|k: int| 0 <= k < self.log_seq().len() && self.log_seq()[k] == x;
                        assert(ids[k] == v);
                    }
                }
            }
        }
        r
    }

    /// Next append sequence for one author/device branch.
    pub fn next_sequence_for_device(&self, author_leaf: u32, device_id: &str) -> (r: u64)
        requires
            self.wf(),
        ensures
            r == if branch_max(self.log_seq(), author_leaf, device_id@) == u64::MAX {
                u64::MAX
            } else {
                (branch_max(self.log_seq(), author_leaf, device_id@) + 1) as u64
            },
    {
        let mut best: u64 = 0;
        let n = self.author_log.len();
        let mut i: usize = 0;
        while i < n
            invariant
                n == self.author_log@.len(),
                n == self.log_seq().len(),
                i <= n,
                best == branch_max(self.log_seq().take(i as int), author_leaf, device_id@),
            decreases n - i,
        {
            proof {
                let s = self.log_seq();
                assert(s.take(i + 1).drop_last() =~= s.take(i as int));
                assert(s.take(i + 1).last() == s[i as int]);
                assert(s[i as int] == eview(self.author_log@[i as int]));
            }
            let e = &self.author_log[i];
            if e.author_leaf == author_leaf && str_equal(e.device_id.as_str(), device_id) && e.sequence > best {
                best = e.sequence;
            }
            i = i + 1;
        }
        assert(self.log_seq().take(n as int) =~= self.log_seq());
        if best == u64::MAX {
            u64::MAX
        } else {
            best + 1
        }
    }

    /// Cache a received message under the bounded retention cache.
    ///
    /// A message that already has a tombstone is cached with its key shredded.
    pub fn cache_received(&mut self, entry: RecipientCacheEntry)
        requires
            old(self).wf(),
        ensures
            final(self).wf(),
            final(self).log() == old(self).log(),
            final(self).tombstones() == old(self).tombstones(),
            final(self).cache().cap() == old(self).cache().cap(),
            upsert(old(self).cache().entry_set(), stored_view(old(self).tombstones(), cview(entry))).len()
                <= old(self).cache().cap() ==> final(self).cache().entry_set() == upsert(
                old(self).cache().entry_set(),
                stored_view(old(self).tombstones(), cview(entry)),
            ),
            upsert(old(self).cache().entry_set(), stored_view(old(self).tombstones(), cview(entry))).len()
                > old(self).cache().cap() ==> exists|x: CacheView| #[trigger] is_oldest(
                upsert(old(self).cache().entry_set(), stored_view(old(self).tombstones(), cview(entry))),
                x,
            ) && final(self).cache().entry_set() == upsert(
                old(self).cache().entry_set(),
                stored_view(old(self).tombstones(), cview(entry)),
            ).remove(x),
    {
        let ghost v = cview(entry);
        if self.is_tombstoned(entry.message_id.as_str()) {
            let stored = RecipientCacheEntry {
                message_id: entry.message_id,
                ciphertext: entry.ciphertext,
                key_state: KeyState::Shredded,
                received_at_ms: entry.received_at_ms,
            };
            assert(cview(stored) == shredded(v));
            self.recipient_cache.insert(stored);
        } else {
            self.recipient_cache.insert(entry);
        }
    }

    fn is_tombstoned(&self, message_id: &str) -> (b: bool)
        requires
            self.wf(),
        ensures
            b == self.tombstones().contains(message_id@),
    {
        let n = self.message_tombstones.len();
        let mut i: usize = 0;
        while i < n
            invariant
                n == self.message_tombstones@.len(),
                i <= n,
                forall|k: int| 0 <= k < i ==> #[trigger] self.message_tombstones@[k]@ != message_id@,
            decreases n - i,
        {
            if str_equal(self.message_tombstones[i].as_str(), message_id) {
                proof {
                    assert(self.message_tombstones@.map_values(|x: String| x@)[i as int] == message_id@);
                }
                return true;
            }
            i = i + 1;
        }
        proof {
            let ids = self.message_tombstones@.map_values(|x: String| x@);
            if ids.contains(message_id@) {
                let k = choose|k: int| 0 <= k < ids.len() && ids[k] == message_id@;
                assert(self.message_tombstones@[k]@ == message_id@);
            }
        }
        false
    }

    fn add_tombstone(&mut self, message_id: &str)
        requires
            old(self).wf(),
        ensures
            final(self).wf(),
            final(self).log() == old(self).log(),
            final(self).cache() == old(self).cache(),
            final(self).tombstones() == old(self).tombstones().insert(message_id@),
    {
        insert_sorted_unique(&mut self.message_tombstones, message_id);
    }

    /// Cooperatively shred a message key and retain a local tombstone.
    pub fn cooperative_shred_message(&mut self, message_id: &str)
        requires
            old(self).wf(),
        ensures
            final(self).wf(),
            final(self).log() == old(self).log(),
            final(self).tombstones() == old(self).tombstones().insert(message_id@),
            final(self).cache().cap() == old(self).cache().cap(),
            final(self).cache().entry_set() == old(self).cache().entry_set().map(
                |x: CacheView| if x.0 == message_id@ { shredded(x) } else { x },
            ),
    {
        self.add_tombstone(message_id);
        self.recipient_cache.shred(message_id);
    }

    /// Merge tombstones received from another own device.
    pub fn merge_message_tombstones(&mut self, message_ids: &[&str])
        requires
            old(self).wf(),
        ensures
            final(self).wf(),
            final(self).log() == old(self).log(),
            final(self).tombstones() == old(self).tombstones().union(message_ids@.map_values(|x: &str| x@).to_set()),
            final(self).cache().cap() == old(self).cache().cap(),
            forall|x: CacheView| #[trigger] final(self).cache().entry_set().contains(x) && message_ids@.map_values(
                |x: &str| x@,
            ).contains(x.0) ==> x.2 == KeyState::Shredded,
    {
        let n = message_ids.len();
        let ghost ids = message_ids@.map_values(|x: &str| x@);
        let mut i: usize = 0;
        while i < n
            invariant
                n == message_ids@.len(),
                ids == message_ids@.map_values(|x: &str| x@),
                i <= n,
                self.wf(),
                self.log() == old(self).log(),
                self.cache().cap() == old(self).cache().cap(),
                self.tombstones() == old(self).tombstones().union(ids.take(i as int).to_set()),
                forall|x: CacheView| #[trigger] self.cache().entry_set().contains(x) && ids.take(i as int).contains(x.0)
                    ==> x.2 == KeyState::Shredded,
            decreases n - i,
        {
            let ghost before = self.cache().entry_set();
            self.cooperative_shred_message(message_ids[i]);
            proof {
                let id = message_ids@[i as int]@;
                assert(ids[i as int] == id);
                assert(ids.take(i + 1) =~= ids.take(i as int).push(id));
                assert(ids.take(i as int).push(id) =~= ids.take(i as int) + seq![id]);
                Seq::lemma_to_set_insert_commutes(ids.take(i as int), id);
                assert(self.tombstones() =~= old(self).tombstones().union(ids.take(i + 1).to_set()));
                let f = |x: CacheView| if x.0 == id { shredded(x) } else { x };
                assert forall|x: CacheView| #[trigger] self.cache().entry_set().contains(x) && ids.take(i + 1).contains(x.0)
                    implies x.2 == KeyState::Shredded by {
                    let y = choose|y: CacheView| before.contains(y) && f(y) == x;
                    if x.0 != id {
                        let pre = ids.take(i + 1);
                        let k = choose|k: int| 0 <= k < pre.len() && #[trigger] pre[k] == x.0;
                        assert(ids.take(i as int)[k] == x.0);
                        assert(y.0 == x.0);
                    }
                }
            }
            i = i + 1;
        }
        assert(ids.take(n as int) =~= ids);
    }

    /// Ordered local tombstone ids.
    pub fn message_tombstones(&self) -> (r: Vec<String>)
        requires
            self.wf(),
        ensures
            string_set(r@) == self.tombstones(),
            strings_sorted(r@),
    {
        let mut out: Vec<String> = Vec::new();
        let n = self.message_tombstones.len();
        let mut i: usize = 0;
        while i < n
            invariant
                n == self.message_tombstones@.len(),
                i <= n,
                out@.len() == i,
                forall|k: int| 0 <= k < i ==> #[trigger] out@[k] == self.message_tombstones@[k],
            decreases n - i,
        {
            out.push(self.message_tombstones[i].clone());
            i = i + 1;
        }
        assert(out@ =~= self.message_tombstones@);
        out
    }

    /// Harness decrypt boundary for tests and storage contracts.
    ///
    /// A tombstoned message never decrypts, whatever the cache holds.
    pub fn decrypt_cached_message_for_harness(&self, message_id: &str) -> (r: Result<Vec<u8>, LocalDecryptError>)
        requires
            self.wf(),
        ensures
            self.tombstones().contains(message_id@) ==> (r matches Err(LocalDecryptError::Shredded(m)) && m@
                == message_id@),
            !self.tombstones().contains(message_id@) ==> {
                &&& (forall|x: CacheView| #[trigger] self.cache().entry_set().contains(x) ==> x.0 != message_id@) ==> (r matches Err(
                    LocalDecryptError::Missing(m),
                ) && m@ == message_id@)
                &&& forall|x: CacheView| #[trigger] self.cache().entry_set().contains(x) && x.0 == message_id@ ==> match x.2 {
                    KeyState::Cached(key) => r matches Ok(p) && p@ == xor_spec(x.1, key@),
                    KeyState::Shredded => r matches Err(LocalDecryptError::Shredded(m)) && m@ == message_id@,
                    KeyState::Locked => r matches Err(LocalDecryptError::Locked(m)) && m@ == message_id@,
                    _ => r matches Err(LocalDecryptError::Unavailable(m)) && m@ == message_id@,
                }
            },
    {
        if self.is_tombstoned(message_id) {
            return Err(LocalDecryptError::Shredded(String::from_str(message_id)));
        }
        let r = self.recipient_cache.decrypt_for_harness(message_id);
        assert(self.cache() == self.recipient_cache);
        r
    }

    /// Recipient cache reference.
    pub fn recipient_cache(&self) -> (r: &BoundedRecipientCache)
        requires
            self.wf(),
        ensures
            *r == self.cache(),
            r.wf(),
    {
        &self.recipient_cache
    }
}

impl Default for LocalStore {
    fn default() -> (r: Self)
        ensures
            r.wf(),
            r.log() == Set::<EntryView>::empty(),
            r.tombstones() == Set::<Seq<char>>::empty(),
            r.cache().cap() == 256,
            r.cache().entry_set() == Set::<CacheView>::empty(),
    {
        LocalStore::with_recipient_cache_capacity(256)
    }
}

} // verus!
