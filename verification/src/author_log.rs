//! Authoritative sent-log entries, their stable ids, and the merge rules that
//! keep every author/device branch append-only.
use vstd::prelude::*;
use vstd::utf8::*;
use crate::digest::{be32, be64, push_be32, push_be64, push_bytes, push_str_bytes, sha256, sha256_of};
use crate::order::{seq_lt, lemma_lt_transitive, lemma_lt_trichotomy};
use crate::text::{all_ws, decimal, decimal_spec, join2, lower_hex, lower_hex_spec, str_equal};

verus! {

/// Author-log append/merge failures.
#[derive(Clone, Debug, Eq, PartialEq)]
pub enum AuthorLogError {
    /// Device id is required to keep each own-device branch independently append-only.
    EmptyDeviceId,
    /// Stable message ids are mandatory for merge/dedupe.
    EmptyMessageId,
    /// The same author/device/sequence already contains different ciphertext or metadata.
    SequenceFork {
        /// Author MLS leaf.
        author_leaf: u32,
        /// Device branch.
        device_id: String,
        /// Device-local sequence.
        sequence: u64,
    },
    /// One stable message id was reused for another log position.
    MessageIdReused {
        /// Reused message id.
        message_id: String,
    },
}

/// The message of the error that reports `f`.
pub open spec fn fault_text(f: AuthorLogFault) -> Seq<char> {
    match f {
        AuthorLogFault::EmptyDeviceId => "author log device id cannot be empty"@,
        AuthorLogFault::EmptyMessageId => "author log message id cannot be empty"@,
        AuthorLogFault::SequenceFork(k) => "author log fork at author "@ + decimal_spec(k.0 as nat) + " device "@ + k.1
            + " sequence "@ + decimal_spec(k.2 as nat),
        AuthorLogFault::MessageIdReused(id) => "author log message id reused at another position: "@ + id,
    }
}

impl AuthorLogError {
    /// Human-readable description of the error.
    pub fn message(&self) -> (r: String)
        ensures
            forall|f: AuthorLogFault| reports_fault(Err::<(), AuthorLogError>(*self), f) ==> r@ == fault_text(f),
            self is EmptyDeviceId ==> r@ == "author log device id cannot be empty"@,
            self is EmptyMessageId ==> r@ == "author log message id cannot be empty"@,
            self matches AuthorLogError::SequenceFork { author_leaf, device_id, sequence } ==> r@
                == "author log fork at author "@ + decimal_spec(author_leaf as nat) + " device "@ + device_id@
                + " sequence "@ + decimal_spec(sequence as nat),
            self matches AuthorLogError::MessageIdReused { message_id } ==> r@
                == "author log message id reused at another position: "@ + message_id@,
    {
        match self {
            AuthorLogError::EmptyDeviceId => String::from_str("author log device id cannot be empty"),
            AuthorLogError::EmptyMessageId => String::from_str("author log message id cannot be empty"),
            AuthorLogError::SequenceFork { author_leaf, device_id, sequence } => {
                let leaf = decimal(*author_leaf as u64);
                let seq_text = decimal(*sequence);
                let mut r = join2("author log fork at author ", leaf.as_str());
                r.append(" device ");
                r.append(device_id.as_str());
                r.append(" sequence ");
                r.append(seq_text.as_str());
                r
            },
            AuthorLogError::MessageIdReused { message_id } => join2(
                "author log message id reused at another position: ",
                message_id.as_str(),
            ),
        }
    }
}

/// Result of one author-log insert.
#[derive(Clone, Copy, Debug, Eq, PartialEq, Structural)]
pub enum AuthorLogAppendOutcome {
    /// A new append-only entry was inserted.
    Inserted,
    /// The entry was already present byte-for-byte.
    Duplicate,
}

/// Aggregate result of an author-log merge.
#[derive(Clone, Copy, Debug, Default, Eq, PartialEq, Structural)]
pub struct AuthorLogMergeReport {
    /// Newly inserted entries.
    pub inserted: usize,
    /// Idempotent duplicate entries already present.
    pub duplicates: usize,
}

/// Deterministic key for an author's sent-log entry.
#[derive(Debug, Eq, PartialEq, Ord, PartialOrd)]
pub struct AuthorLogKey {
    /// Author MLS leaf.
    pub author_leaf: u32,
    /// Device id that authored this entry.
    pub device_id: String,
    /// Device-local sequence under the author.
    pub sequence: u64,
}

impl Clone for AuthorLogKey {
    fn clone(&self) -> (r: Self)
        ensures
            r == *self,
    {
        AuthorLogKey { author_leaf: self.author_leaf, device_id: self.device_id.clone(), sequence: self.sequence }
    }
}

/// Authoritative sent-log entry.
#[derive(Debug, Eq, PartialEq)]
pub struct AuthorLogEntry {
    /// Author MLS leaf.
    pub author_leaf: u32,
    /// Device id that authored this entry.
    pub device_id: String,
    /// Per-author monotonic sequence.
    pub sequence: u64,
    /// MLS epoch used to encrypt/send the message.
    pub epoch: u64,
    /// Stable message id.
    pub message_id: String,
    /// MLS/content encrypted text bytes.
    pub ciphertext: Vec<u8>,
}

/// An entry by value: leaf, device, sequence, epoch, message id, ciphertext.
pub type EntryView = (u32, Seq<char>, u64, u64, Seq<char>, Seq<u8>);

/// An entry's position: leaf, device, sequence.
pub type KeyView = (u32, Seq<char>, u64);

pub open spec fn eview(e: AuthorLogEntry) -> EntryView {
    (e.author_leaf, e.device_id@, e.sequence, e.epoch, e.message_id@, e.ciphertext@)
}

pub open spec fn kview(e: EntryView) -> KeyView {
    (e.0, e.1, e.2)
}

/// Entry values in order.
pub open spec fn evs(s: Seq<AuthorLogEntry>) -> Seq<EntryView> {
    s.map_values(|e: AuthorLogEntry| eview(e))
}

impl Clone for AuthorLogEntry {
    fn clone(&self) -> (r: Self)
        ensures
            eview(r) == eview(*self),
    {
        AuthorLogEntry {
            author_leaf: self.author_leaf,
            device_id: self.device_id.clone(),
            sequence: self.sequence,
            epoch: self.epoch,
            message_id: self.message_id.clone(),
            ciphertext: self.ciphertext.clone(),
        }
    }
}

/// Domain separator of stable message ids.
pub const AUTHOR_LOG_MESSAGE_ID_DOMAIN: &'static str = "discrypt:v1:author-log-message-id";

/// Bytes hashed for a stable message id.
pub open spec fn stable_id_input(author_leaf: u32, device_id: Seq<char>, sequence: u64, epoch: u64, ciphertext: Seq<u8>) -> Seq<u8> {
    encode_utf8(AUTHOR_LOG_MESSAGE_ID_DOMAIN@) + be32(author_leaf) + be64(encode_utf8(device_id).len() as u64)
        + encode_utf8(device_id) + be64(sequence) + be64(epoch) + sha256_of(ciphertext)
}

/// The stable message id: `msg_` and the lower-case hex of the input's SHA-256.
pub open spec fn stable_id_spec(author_leaf: u32, device_id: Seq<char>, sequence: u64, epoch: u64, ciphertext: Seq<u8>) -> Seq<char> {
    "msg_"@ + lower_hex_spec(sha256_of(stable_id_input(author_leaf, device_id, sequence, epoch, ciphertext)))
}

impl AuthorLogEntry {
    /// Construct a sent-log entry.
    pub fn new(author_leaf: u32, device_id: &str, sequence: u64, epoch: u64, message_id: &str, ciphertext: Vec<u8>) -> (r: Self)
        ensures
            eview(r) == (author_leaf, device_id@, sequence, epoch, message_id@, ciphertext@),
    {
        AuthorLogEntry {
            author_leaf,
            device_id: String::from_str(device_id),
            sequence,
            epoch,
            message_id: String::from_str(message_id),
            ciphertext,
        }
    }

    /// Construct a sent-log entry with a stable id derived from canonical fields.
    pub fn new_stable(author_leaf: u32, device_id: &str, sequence: u64, epoch: u64, ciphertext: Vec<u8>) -> (r: Self)
        requires
            encode_utf8(device_id@).len() <= u64::MAX,
        ensures
            eview(r) == (author_leaf, device_id@, sequence, epoch,
                stable_id_spec(author_leaf, device_id@, sequence, epoch, ciphertext@), ciphertext@),
    {
        let message_id = Self::stable_message_id(author_leaf, device_id, sequence, epoch, ciphertext.as_slice());
        AuthorLogEntry { author_leaf, device_id: String::from_str(device_id), sequence, epoch, message_id, ciphertext }
    }

    /// Stable message-id derivation used before transport fanout or history merge.
    pub fn stable_message_id(author_leaf: u32, device_id: &str, sequence: u64, epoch: u64, ciphertext: &[u8]) -> (r: String)
        requires
            encode_utf8(device_id@).len() <= u64::MAX,
        ensures
            r@ == stable_id_spec(author_leaf, device_id@, sequence, epoch, ciphertext@),
    {
        let mut input: Vec<u8> = Vec::new();
        push_str_bytes(&mut input, AUTHOR_LOG_MESSAGE_ID_DOMAIN);
        push_be32(&mut input, author_leaf);
        let device_len = device_id.as_bytes().len();
        push_be64(&mut input, device_len as u64);
        push_str_bytes(&mut input, device_id);
        push_be64(&mut input, sequence);
        push_be64(&mut input, epoch);
        let inner = sha256(ciphertext);
        push_bytes(&mut input, &inner);
        assert(input@ =~= stable_id_input(author_leaf, device_id@, sequence, epoch, ciphertext@));
        let digest = sha256(input.as_slice());
        let hex = lower_hex(&digest);
        join2("msg_", hex.as_str())
    }

    /// Whether this entry's id matches the canonical stable derivation.
    pub fn has_stable_message_id(&self) -> (b: bool)
        requires
            encode_utf8(self.device_id@).len() <= u64::MAX,
        ensures
            b == (self.message_id@ == stable_id_spec(self.author_leaf, self.device_id@, self.sequence, self.epoch, self.ciphertext@)),
    {
        let expected = Self::stable_message_id(
            self.author_leaf,
            self.device_id.as_str(),
            self.sequence,
            self.epoch,
            self.ciphertext.as_slice(),
        );
        str_equal(self.message_id.as_str(), expected.as_str())
    }

    /// Key used for deterministic merge/dedupe.
    pub fn key(&self) -> (k: AuthorLogKey)
        ensures
            k.author_leaf == self.author_leaf,
            k.device_id@ == self.device_id@,
            k.sequence == self.sequence,
    {
        AuthorLogKey { author_leaf: self.author_leaf, device_id: self.device_id.clone(), sequence: self.sequence }
    }
}

// ---------------------------------------------------------------------------
// Order of positions.
// ---------------------------------------------------------------------------

/// Position order: author leaf, then device id, then sequence.
pub open spec fn key_lt(a: KeyView, b: KeyView) -> bool {
    a.0 < b.0 || (a.0 == b.0 && (seq_lt(a.1, b.1) || (a.1 == b.1 && a.2 < b.2)))
}

pub proof fn lemma_key_lt_transitive(a: KeyView, b: KeyView, c: KeyView)
    requires
        key_lt(a, b),
        key_lt(b, c),
    ensures
        key_lt(a, c),
{
    if a.0 == b.0 && b.0 == c.0 {
        if seq_lt(a.1, b.1) && seq_lt(b.1, c.1) {
            lemma_lt_transitive(a.1, b.1, c.1);
        }
    }
}

pub proof fn lemma_key_lt_trichotomy(a: KeyView, b: KeyView)
    ensures
        a == b || key_lt(a, b) || key_lt(b, a),
        !(key_lt(a, b) && key_lt(b, a)),
        !key_lt(a, a),
{
    lemma_lt_trichotomy(a.1, b.1);
    lemma_lt_trichotomy(a.1, a.1);
}

pub(crate) fn key_less(a: &AuthorLogEntry, b: &AuthorLogEntry) -> (r: bool)
    ensures
        r == key_lt(kview(eview(*a)), kview(eview(*b))),
{
    if a.author_leaf != b.author_leaf {
        return a.author_leaf < b.author_leaf;
    }
    if crate::order::str_lt(a.device_id.as_str(), b.device_id.as_str()) {
        return true;
    }
    if !str_equal(a.device_id.as_str(), b.device_id.as_str()) {
        return false;
    }
    a.sequence < b.sequence
}

pub(crate) fn same_key(a: &AuthorLogEntry, b: &AuthorLogEntry) -> (r: bool)
    ensures
        r == (kview(eview(*a)) == kview(eview(*b))),
{
    a.author_leaf == b.author_leaf && str_equal(a.device_id.as_str(), b.device_id.as_str()) && a.sequence == b.sequence
}

pub(crate) fn same_entry(a: &AuthorLogEntry, b: &AuthorLogEntry) -> (r: bool)
    ensures
        r == (eview(*a) == eview(*b)),
{
    same_key(a, b) && a.epoch == b.epoch && str_equal(a.message_id.as_str(), b.message_id.as_str())
        && crate::order::slice_eq(a.ciphertext.as_slice(), b.ciphertext.as_slice())
}

// ---------------------------------------------------------------------------
// Merge rules over the set of logged entries.
// ---------------------------------------------------------------------------

/// Why an entry is refused.
pub enum AuthorLogFault {
    EmptyDeviceId,
    EmptyMessageId,
    SequenceFork(KeyView),
    MessageIdReused(Seq<char>),
}

/// Some logged entry sits at position `k`.
pub open spec fn key_taken(log: Set<EntryView>, k: KeyView) -> bool {
    exists|x: EntryView| #[trigger] log.contains(x) && kview(x) == k
}

/// Some logged entry carries message id `id`.
pub open spec fn id_taken(log: Set<EntryView>, id: Seq<char>) -> bool {
    exists|x: EntryView| #[trigger] log.contains(x) && x.4 == id
}

/// The refusal an entry meets against a log, if any.
pub open spec fn insert_fault(log: Set<EntryView>, e: EntryView) -> Option<AuthorLogFault> {
    if all_ws(e.1) {
        Some(AuthorLogFault::EmptyDeviceId)
    } else if all_ws(e.4) {
        Some(AuthorLogFault::EmptyMessageId)
    } else if key_taken(log, kview(e)) {
        if log.contains(e) {
            None
        } else {
            Some(AuthorLogFault::SequenceFork(kview(e)))
        }
    } else if id_taken(log, e.4) {
        Some(AuthorLogFault::MessageIdReused(e.4))
    } else {
        None
    }
}

/// `r` is the error that reports `f`.
pub open spec fn reports_fault<T>(r: Result<T, AuthorLogError>, f: AuthorLogFault) -> bool {
    match f {
        AuthorLogFault::EmptyDeviceId => r matches Err(AuthorLogError::EmptyDeviceId),
        AuthorLogFault::EmptyMessageId => r matches Err(AuthorLogError::EmptyMessageId),
        AuthorLogFault::SequenceFork(k) => r matches Err(AuthorLogError::SequenceFork { author_leaf, device_id, sequence })
            && author_leaf == k.0 && device_id@ == k.1 && sequence == k.2,
        AuthorLogFault::MessageIdReused(id) => r matches Err(AuthorLogError::MessageIdReused { message_id })
            && message_id@ == id,
    }
}

/// Merging entries in order, stopping at the first refusal: the resulting
/// log, and either the inserted/duplicate counts or the refusal.
pub open spec fn merge_spec(log: Set<EntryView>, es: Seq<EntryView>) -> (Set<EntryView>, Result<(nat, nat), AuthorLogFault>)
    decreases es.len(),
{
    if es.len() == 0 {
        (log, Ok((0, 0)))
    } else {
        let prev = merge_spec(log, es.drop_last());
        match prev.1 {
            Err(f) => prev,
            Ok(counts) => {
                let e = es.last();
                match insert_fault(prev.0, e) {
                    Some(f) => (prev.0, Err(f)),
                    None => if prev.0.contains(e) {
                        (prev.0, Ok((counts.0, counts.1 + 1)))
                    } else {
                        (prev.0.insert(e), Ok((counts.0 + 1, counts.1)))
                    },
                }
            },
        }
    }
}

/// A merge that failed on a prefix fails the same way on the whole sequence.
pub proof fn lemma_merge_error_sticks(log: Set<EntryView>, es: Seq<EntryView>, k: int)
    requires
        0 <= k <= es.len(),
        merge_spec(log, es.take(k)).1 is Err,
    ensures
        merge_spec(log, es) == merge_spec(log, es.take(k)),
    decreases es.len() - k,
{
    if k < es.len() {
        assert(es.take(k + 1).drop_last() =~= es.take(k));
        lemma_merge_error_sticks(log, es, k + 1);
    } else {
        assert(es.take(k) =~= es);
    }
}

/// Entries in the log are never removed by a merge: the log only grows.
pub proof fn lemma_merge_only_grows(log: Set<EntryView>, es: Seq<EntryView>)
    ensures
        log.subset_of(merge_spec(log, es).0),
    decreases es.len(),
{
    if es.len() > 0 {
        lemma_merge_only_grows(log, es.drop_last());
    }
}

/// A merge that succeeds leaves exactly the union of the log and the merged entries.
pub proof fn lemma_merge_ok_is_union(log: Set<EntryView>, es: Seq<EntryView>)
    ensures
        merge_spec(log, es).1 is Ok ==> merge_spec(log, es).0 == log.union(es.to_set()),
    decreases es.len(),
{
    if es.len() > 0 {
        let init = es.drop_last();
        lemma_merge_ok_is_union(log, init);
        assert(es =~= init.push(es.last()));
        assert(es.to_set() =~= init.to_set().insert(es.last())) by {
            assert forall|x: EntryView| es.to_set().contains(x) == init.to_set().insert(es.last()).contains(x) by {
                if es.contains(x) {
                    let i = choose|i: int| 0 <= i < es.len() && es[i] == x;
                    if i < es.len() - 1 {
                        assert(init[i] == x);
                    }
                }
                if init.contains(x) {
                    let i = choose|i: int| 0 <= i < init.len() && init[i] == x;
                    assert(es[i] == x);
                }
                if x == es.last() {
                    assert(es[es.len() - 1] == x);
                }
            }
        }
        let prev = merge_spec(log, init);
        if prev.1 is Ok && merge_spec(log, es).1 is Ok {
            assert(merge_spec(log, es).0 =~= log.union(es.to_set()));
        }
    } else {
        assert(es.to_set() =~= Set::<EntryView>::empty());
        assert(log.union(es.to_set()) =~= log);
    }
}

/// Two devices that merge each other's logs without a refusal end with the
/// same log: the union of both.
pub proof fn law_merge_converges(a: Set<EntryView>, b: Set<EntryView>, a_entries: Seq<EntryView>, b_entries: Seq<EntryView>)
    requires
        a_entries.to_set() == a,
        b_entries.to_set() == b,
        merge_spec(a, b_entries).1 is Ok,
        merge_spec(b, a_entries).1 is Ok,
    ensures
        merge_spec(a, b_entries).0 == merge_spec(b, a_entries).0,
        merge_spec(a, b_entries).0 == a.union(b),
{
    lemma_merge_ok_is_union(a, b_entries);
    lemma_merge_ok_is_union(b, a_entries);
    assert(a.union(b) =~= b.union(a));
}

/// Every logged entry has a device id and a message id, no two share a
/// position, and no two share a message id.
pub open spec fn log_valid(log: Set<EntryView>) -> bool {
    &&& forall|x: EntryView| #[trigger] log.contains(x) ==> !all_ws(x.1) && !all_ws(x.4)
    &&& forall|x: EntryView, y: EntryView| #[trigger] log.contains(x) && #[trigger] log.contains(y)
        && kview(x) == kview(y) ==> x == y
}

/// Merging entries a valid log already holds changes nothing and counts
/// every one of them as a duplicate.
pub proof fn law_remerge_is_idempotent(log: Set<EntryView>, es: Seq<EntryView>)
    requires
        log_valid(log),
        forall|i: int| 0 <= i < es.len() ==> log.contains(#[trigger] es[i]),
    ensures
        merge_spec(log, es) == (log, Ok::<(nat, nat), AuthorLogFault>((0nat, es.len()))),
    decreases es.len(),
{
    if es.len() > 0 {
        let init = es.drop_last();
        assert forall|i: int| 0 <= i < init.len() implies log.contains(#[trigger] init[i]) by {
            assert(init[i] == es[i]);
        }
        law_remerge_is_idempotent(log, init);
        let e = es.last();
        assert(log.contains(e)) by {
            assert(es[es.len() - 1] == e);
        }
        assert(key_taken(log, kview(e)));
    }
}

} // verus!
