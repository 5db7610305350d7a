//! Byte-oriented application-state store boundary and the persisted
//! application state schema.
use vstd::prelude::*;
use crate::order::{seq_le, seq_lt, str_lt, lemma_le_total, lemma_le_transitive, lemma_lt_trichotomy};
use crate::text::{join2, str_equal, text};

verus! {

#[verifier::external_type_specification]
#[verifier::external_body]
pub struct ExIoError(std::io::Error);

#[verifier::external_type_specification]
#[verifier::external_body]
pub struct ExJsonError(serde_json::Error);

/// App-store persistence errors.
#[derive(Debug)]
pub enum AppStoreError {
    /// Underlying filesystem operation failed.
    Io(std::io::Error),
    /// In-memory store lock was poisoned.
    LockPoisoned,
    /// Serialized state or encrypted envelope was malformed.
    Serde(serde_json::Error),
    /// App DB encryption/decryption failed.
    Crypto(&'static str),
    /// Required keychain wrapping key is unavailable.
    KeychainMissing(String),
    /// Platform keychain operation failed.
    Keychain(String),
}

/// The message of `e`, where it holds no outside error.
pub open spec fn store_error_text(e: AppStoreError) -> Option<Seq<char>> {
    match e {
        AppStoreError::Io(_) => None,
        AppStoreError::LockPoisoned => Some("app store lock poisoned"@),
        AppStoreError::Serde(_) => None,
        AppStoreError::Crypto(m) => Some("app store crypto error: "@ + m@),
        AppStoreError::KeychainMissing(id) => Some("app store keychain key missing: "@ + id@),
        AppStoreError::Keychain(m) => Some("app store keychain error: "@ + m@),
    }
}

/// Whether `r` begins with `prefix`.
pub open spec fn starts_with(r: Seq<char>, prefix: Seq<char>) -> bool {
    r.len() >= prefix.len() && r.subrange(0, prefix.len() as int) == prefix
}

/// Calls `ToString::to_string` on an I/O error. Trusted for nothing: the
/// text comes from the operating system.
#[verifier::external_body]
fn io_error_text(e: &std::io::Error) -> String {
    e.to_string()
}

/// Calls `ToString::to_string` on a JSON error. Trusted for nothing: the
/// text is serde_json's own wording.
#[verifier::external_body]
fn json_error_text(e: &serde_json::Error) -> String {
    e.to_string()
}

impl AppStoreError {
    /// Human-readable description of the error.
    pub fn message(&self) -> (r: String)
        ensures
            store_error_text(*self) matches Some(t) ==> r@ == t,
            self is Io ==> starts_with(r@, "app store I/O error: "@),
            self is Serde ==> starts_with(r@, "app store serialization error: "@),
    {
        match self {
            AppStoreError::Io(e) => {
                let inner = io_error_text(e);
                let r = join2("app store I/O error: ", inner.as_str());
                assert(r@.subrange(0, "app store I/O error: "@.len() as int) =~= "app store I/O error: "@);
                r
            },
            AppStoreError::LockPoisoned => text("app store lock poisoned"),
            AppStoreError::Serde(e) => {
                let inner = json_error_text(e);
                let r = join2("app store serialization error: ", inner.as_str());
                assert(r@.subrange(0, "app store serialization error: "@.len() as int) =~= "app store serialization error: "@);
                r
            },
            AppStoreError::Crypto(m) => join2("app store crypto error: ", m),
            AppStoreError::KeychainMissing(id) => join2("app store keychain key missing: ", id.as_str()),
            AppStoreError::Keychain(m) => join2("app store keychain error: ", m.as_str()),
        }
    }
}

/// Byte-oriented local app-state store used by the core application service.
///
/// Implementations persist the serialized state durably; the core crate owns
/// the typed schema.
pub trait AppStore: Sized {
    /// Load the serialized app state, if initialized.
    fn load_app_state(&mut self) -> Result<Option<Vec<u8>>, AppStoreError>;

    /// Save the serialized app state durably.
    fn save_app_state(&mut self, bytes: &[u8]) -> Result<(), AppStoreError>;
}

/// Deterministic in-memory app store for tests and harnesses.
#[derive(Debug, Default)]
pub struct MemoryAppStore {
    bytes: Option<Vec<u8>>,
}

impl MemoryAppStore {
    /// The stored bytes, if any were saved.
    pub closed spec fn stored(&self) -> Option<Seq<u8>> {
        match self.bytes {
            Some(b) => Some(b@),
            None => None,
        }
    }

    /// An empty store.
    pub fn new() -> (r: Self)
        ensures
            r.stored() is None,
    {
        MemoryAppStore { bytes: None }
    }
}

impl AppStore for MemoryAppStore {
    /// Load gives back exactly what the last save stored.
    fn load_app_state(&mut self) -> (r: Result<Option<Vec<u8>>, AppStoreError>)
        ensures
            final(self).stored() == old(self).stored(),
            r matches Ok(v) && match old(self).stored() {
                Some(b) => v matches Some(x) && x@ == b,
                None => v is None,
            },
    {
        match &self.bytes {
            Some(b) => Ok(Some(b.clone())),
            None => Ok(None),
        }
    }

    /// Save replaces the stored bytes.
    fn save_app_state(&mut self, bytes: &[u8]) -> (r: Result<(), AppStoreError>)
        ensures
            r is Ok,
            final(self).stored() == Some(bytes@),
    {
        let mut v: Vec<u8> = Vec::new();
        crate::digest::push_bytes(&mut v, bytes);
        assert(v@ =~= bytes@);
        self.bytes = Some(v);
        Ok(())
    }
}

/// Persisted application state schema version.
pub const APP_STATE_SCHEMA_VERSION: u32 = 1;

/// Local account identity persisted by the application store.
#[derive(Clone, Debug, Eq, PartialEq)]
pub struct AppIdentityState {
    /// Stable local user id.
    pub user_id: String,
    /// User-visible display name.
    pub display_name: String,
    /// Backend-owned friend code/QR payload.
    pub friend_code: String,
    /// Current local device id.
    pub device_id: String,
    /// Pairwise safety number copy surfaced by the UI.
    pub safety_number: String,
    /// Explicit out-of-band verification flag.
    pub safety_verified: bool,
}

impl AppIdentityState {
    /// Build identity state for persistence-backed command snapshots.
    pub fn new(user_id: &str, display_name: &str, friend_code: &str, device_id: &str, safety_number: &str) -> (r: Self)
        ensures
            r.user_id@ == user_id@,
            r.display_name@ == display_name@,
            r.friend_code@ == friend_code@,
            r.device_id@ == device_id@,
            r.safety_number@ == safety_number@,
            !r.safety_verified,
    {
        AppIdentityState {
            user_id: text(user_id),
            display_name: text(display_name),
            friend_code: text(friend_code),
            device_id: text(device_id),
            safety_number: text(safety_number),
            safety_verified: false,
        }
    }
}

/// User preference state that must survive restart.
#[derive(Clone, Debug, Eq, PartialEq)]
pub struct AppPreferencesState {
    /// UI theme identifier.
    pub theme: String,
    /// Active UI template identifier.
    pub active_template: String,
    /// Default retention preset for new channels/messages.
    pub retention_preset: String,
}

impl Default for AppPreferencesState {
    fn default() -> (r: Self)
        ensures
            r.theme@ == "system"@,
            r.active_template@ == "command-center"@,
            r.retention_preset@ == "7 days"@,
    {
        AppPreferencesState {
            theme: text("system"),
            active_template: text("command-center"),
            retention_preset: text("7 days"),
        }
    }
}

/// Channel state persisted under a group/server.
#[derive(Clone, Debug, Eq, PartialEq)]
pub struct AppChannelState {
    /// Stable channel id.
    pub channel_id: String,
    /// Parent group id.
    pub group_id: String,
    /// User-visible channel name.
    pub name: String,
    /// Channel kind string shared with command DTOs (`text` or `voice`).
    pub kind: String,
    /// Retention status copy derived from preferences/governance.
    pub retention_status: String,
}

impl AppChannelState {
    /// Create channel state.
    pub fn new(channel_id: &str, group_id: &str, name: &str, kind: &str, retention_status: &str) -> (r: Self)
        ensures
            r.channel_id@ == channel_id@,
            r.group_id@ == group_id@,
            r.name@ == name@,
            r.kind@ == kind@,
            r.retention_status@ == retention_status@,
    {
        AppChannelState {
            channel_id: text(channel_id),
            group_id: text(group_id),
            name: text(name),
            kind: text(kind),
            retention_status: text(retention_status),
        }
    }
}

/// Group/server state persisted for command-backed UI navigation.
#[derive(Clone, Debug, Eq, PartialEq)]
pub struct AppGroupState {
    /// Stable group id.
    pub group_id: String,
    /// User-visible group/server label.
    pub name: String,
    /// Local user's role label.
    pub role: String,
    /// Current MLS epoch summary.
    pub epoch: u64,
    /// Channels belonging to this group.
    pub channels: Vec<AppChannelState>,
}

impl AppGroupState {
    /// Create an empty group/server at epoch 1.
    pub fn new(group_id: &str, name: &str, role: &str) -> (r: Self)
        ensures
            r.group_id@ == group_id@,
            r.name@ == name@,
            r.role@ == role@,
            r.epoch == 1,
            r.channels@.len() == 0,
    {
        AppGroupState { group_id: text(group_id), name: text(name), role: text(role), epoch: 1, channels: Vec::new() }
    }
}

/// Persisted encrypted message record. Plaintext and content keys are never fields here.
#[derive(Clone, Debug, Eq, PartialEq)]
pub struct AppMessageState {
    /// Stable message id.
    pub message_id: String,
    /// Parent group id.
    pub group_id: String,
    /// Parent channel id.
    pub channel_id: String,
    /// Author/device label.
    pub author_id: String,
    /// Monotonic author sequence.
    pub sequence: u64,
    /// MLS epoch used for the ciphertext.
    pub epoch: u64,
    /// Ciphertext bytes only.
    pub ciphertext: Vec<u8>,
    /// Deterministic timestamp used by harnesses and UI ordering.
    pub sent_at_ms: u64,
}

/// Persisted cooperative shred tombstone for a message.
#[derive(Debug, Eq, PartialEq)]
pub struct AppMessageTombstoneState {
    /// Stable message id.
    pub message_id: String,
    /// Backend/device timestamp when the tombstone was recorded.
    pub shredded_at_ms: u64,
    /// Backend-owned reason label, such as `cooperative-shred`.
    pub reason: String,
}

impl Clone for AppMessageTombstoneState {
    fn clone(&self) -> (r: Self)
        ensures
            tview(r) == tview(*self),
    {
        AppMessageTombstoneState {
            message_id: self.message_id.clone(),
            shredded_at_ms: self.shredded_at_ms,
            reason: self.reason.clone(),
        }
    }
}

/// A tombstone by value: message id, shred time, reason.
pub type TombstoneView = (Seq<char>, u64, Seq<char>);

pub open spec fn tview(t: AppMessageTombstoneState) -> TombstoneView {
    (t.message_id@, t.shredded_at_ms, t.reason@)
}

pub open spec fn tviews(s: Seq<AppMessageTombstoneState>) -> Seq<TombstoneView> {
    s.map_values(|t: AppMessageTombstoneState| tview(t))
}

impl AppMessageTombstoneState {
    /// Construct a persisted tombstone.
    pub fn new(message_id: &str, shredded_at_ms: u64, reason: &str) -> (r: Self)
        ensures
            tview(r) == (message_id@, shredded_at_ms, reason@),
    {
        AppMessageTombstoneState { message_id: text(message_id), shredded_at_ms, reason: text(reason) }
    }
}

/// Invite/admission flow state persisted for restart-safe admin UX.
#[derive(Clone, Debug, Eq, PartialEq)]
pub struct AppInviteState {
    /// Stable invite id.
    pub invite_id: String,
    /// Parent group id.
    pub group_id: String,
    /// Expiry copy or timestamp string from the admission layer.
    pub expires: String,
    /// Max-use copy.
    pub max_use: String,
    /// Password-gate posture copy. No offline verifier secret is stored here.
    pub password_gate: String,
    /// Revocation flag.
    pub revoked: bool,
}

/// Voice session state persisted for command-backed voice controls.
#[derive(Clone, Debug, Eq, PartialEq)]
pub struct AppVoiceSessionState {
    /// Stable voice session id.
    pub session_id: String,
    /// Parent group id.
    pub group_id: String,
    /// Parent voice channel id.
    pub channel_id: String,
    /// Current connection route label.
    pub route: String,
    /// Whether local user is joined.
    pub joined: bool,
    /// Whether local microphone is muted.
    pub muted: bool,
}

/// Complete application state persisted by an [`AppStore`].
#[derive(Debug)]
pub struct AppState {
    /// Persisted schema version.
    pub schema_version: u32,
    /// Local account identity.
    pub identity: AppIdentityState,
    /// User preferences.
    pub preferences: AppPreferencesState,
    /// Groups with channels.
    pub groups: Vec<AppGroupState>,
    /// Ciphertext-only messages.
    pub messages: Vec<AppMessageState>,
    /// Cooperative shred tombstones. Ciphertext can remain, but content keys cannot.
    pub message_tombstones: Vec<AppMessageTombstoneState>,
    /// Invite flow state.
    pub invites: Vec<AppInviteState>,
    /// Voice session state.
    pub voice_sessions: Vec<AppVoiceSessionState>,
}

/// Tombstones in non-decreasing message-id order.
pub open spec fn tombstones_sorted(s: Seq<TombstoneView>) -> bool {
    forall|i: int, j: int| 0 <= i < j < s.len() ==> seq_le(#[trigger] s[i].0, #[trigger] s[j].0)
}

/// Index of the first tombstone with `id`, or the length when none has it.
pub open spec fn first_with_id(s: Seq<TombstoneView>, id: Seq<char>) -> int
    decreases s.len(),
{
    if s.len() == 0 {
        0
    } else if s[0].0 == id {
        0
    } else {
        1 + first_with_id(s.drop_first(), id)
    }
}

/// Message ids of tombstones, as a set.
pub open spec fn tomb_ids(s: Seq<TombstoneView>) -> Set<Seq<char>> {
    s.map_values(|t: TombstoneView| t.0).to_set()
}

proof fn lemma_same_multiset_ids(a: Seq<TombstoneView>, b: Seq<TombstoneView>, x: TombstoneView)
    requires
        a.to_multiset() == b.to_multiset().insert(x),
    ensures
        tomb_ids(a) == tomb_ids(b).insert(x.0),
{
    a.to_multiset_ensures();
    b.to_multiset_ensures();
    assert forall|id: Seq<char>| tomb_ids(a).contains(id) == tomb_ids(b).insert(x.0).contains(id) by {
        let f = |t: TombstoneView| t.0;
        if a.map_values(f).contains(id) {
            let k = choose|k: int| 0 <= k < a.len() && #[trigger] a.map_values(f)[k] == id;
            assert(a.contains(a[k]));
            assert(a.to_multiset().count(a[k]) > 0);
            if a[k] != x {
                assert(b.to_multiset().count(a[k]) > 0);
                let j = choose|j: int| 0 <= j < b.len() && b[j] == a[k];
                assert(b.map_values(f)[j] == id);
            }
        }
        if b.map_values(f).contains(id) {
            let j = choose|j: int| 0 <= j < b.len() && #[trigger] b.map_values(f)[j] == id;
            assert(b.contains(b[j]));
            assert(a.to_multiset().count(b[j]) > 0);
            let k = choose|k: int| 0 <= k < a.len() && a[k] == b[j];
            assert(a.map_values(f)[k] == id);
        }
        if id == x.0 {
            assert(a.to_multiset().count(x) > 0);
            let k = choose|k: int| 0 <= k < a.len() && a[k] == x;
            assert(a.map_values(f)[k] == id);
        }
    }
    assert(tomb_ids(a) =~= tomb_ids(b).insert(x.0));
}

/// Merging a new record into an existing tombstone: the earlier time wins,
/// and an empty reason is filled in.
pub open spec fn merged_tombstone(existing: TombstoneView, t: TombstoneView) -> TombstoneView {
    (
        existing.0,
        if t.1 < existing.1 { t.1 } else { existing.1 },
        if existing.2.len() == 0 { t.2 } else { existing.2 },
    )
}

impl AppState {
    /// Construct app state with defaults and no product entities.
    pub fn new(identity: AppIdentityState) -> (r: Self)
        ensures
            r.schema_version == APP_STATE_SCHEMA_VERSION,
            r.identity == identity,
            r.preferences.theme@ == "system"@,
            r.preferences.active_template@ == "command-center"@,
            r.preferences.retention_preset@ == "7 days"@,
            r.groups@.len() == 0,
            r.messages@.len() == 0,
            r.message_tombstones@.len() == 0,
            r.invites@.len() == 0,
            r.voice_sessions@.len() == 0,
    {
        AppState {
            schema_version: APP_STATE_SCHEMA_VERSION,
            identity,
            preferences: AppPreferencesState::default(),
            groups: Vec::new(),
            messages: Vec::new(),
            message_tombstones: Vec::new(),
            invites: Vec::new(),
            voice_sessions: Vec::new(),
        }
    }

    /// Record a cooperative shred tombstone without deleting ciphertext history.
    ///
    /// An existing tombstone for the same message keeps the earlier time and
    /// gains a reason if it had none; otherwise the tombstone is added and the
    /// list re-sorted by message id.
    pub fn record_message_tombstone(&mut self, tombstone: AppMessageTombstoneState)
        ensures
            ({
                let s = tviews(old(self).message_tombstones@);
                let k = first_with_id(s, tombstone.message_id@);
                &&& k < s.len() ==> tviews(final(self).message_tombstones@) == s.update(k, merged_tombstone(s[k], tview(tombstone)))
                &&& k >= s.len() ==> tombstones_sorted(tviews(final(self).message_tombstones@))
                    && tviews(final(self).message_tombstones@).to_multiset() == s.to_multiset().insert(tview(tombstone))
            }),
            tomb_ids(tviews(final(self).message_tombstones@)) == tomb_ids(tviews(old(self).message_tombstones@)).insert(
                tombstone.message_id@,
            ),
    {
        let ghost s = tviews(self.message_tombstones@);
        let n = self.message_tombstones.len();
        let mut i: usize = 0;
        assert(s.skip(0) =~= s);
        while i < n
            invariant
                n == self.message_tombstones@.len(),
                s == tviews(self.message_tombstones@),
                s == tviews(old(self).message_tombstones@),
                self.message_tombstones@ == old(self).message_tombstones@,
                i <= n,
                first_with_id(s, tombstone.message_id@) == i + first_with_id(s.skip(i as int), tombstone.message_id@),
            decreases n - i,
        {
            if str_equal(self.message_tombstones[i].message_id.as_str(), tombstone.message_id.as_str()) {
                let existing = self.message_tombstones.remove(i);
                let shredded_at_ms = if tombstone.shredded_at_ms < existing.shredded_at_ms {
                    tombstone.shredded_at_ms
                } else {
                    existing.shredded_at_ms
                };
                let reason = if existing.reason.unicode_len() == 0 {
                    tombstone.reason
                } else {
                    existing.reason
                };
                let merged = AppMessageTombstoneState { message_id: existing.message_id, shredded_at_ms, reason };
                self.message_tombstones.insert(i, merged);
                proof {
                    assert(s.skip(i as int)[0] == s[i as int]);
                    assert(tview(existing) == s[i as int]);
                    assert(first_with_id(s.skip(i as int), tombstone.message_id@) == 0);
                    assert(tviews(self.message_tombstones@) =~= s.update(
                        i as int,
                        merged_tombstone(s[i as int], tview(tombstone)),
                    ));
                    let f = |t: TombstoneView| t.0;
                    assert(tviews(self.message_tombstones@).map_values(f) =~= s.map_values(f));
                    assert(s.map_values(f)[i as int] == tombstone.message_id@);
                    assert(tomb_ids(s).insert(tombstone.message_id@) =~= tomb_ids(s));
                }
                return;
            }
            proof {
                assert(s.skip(i as int)[0] == s[i as int]);
                assert(s.skip(i as int).drop_first() =~= s.skip(i + 1));
            }
            i = i + 1;
        }
        proof {
            assert(s.skip(n as int).len() == 0);
        }
        self.message_tombstones.push(tombstone);
        sort_tombstones(&mut self.message_tombstones);
        proof {
            assert(tviews(old(self).message_tombstones@.push(tombstone)) =~= s.push(tview(tombstone)));
            s.to_multiset_ensures();
            lemma_same_multiset_ids(tviews(self.message_tombstones@), s, tview(tombstone));
        }
    }

    /// Merge tombstones from another own device, one after another.
    pub fn merge_message_tombstones(&mut self, tombstones: Vec<AppMessageTombstoneState>)
        ensures
            tomb_ids(tviews(final(self).message_tombstones@)) == tomb_ids(tviews(old(self).message_tombstones@)).union(
                tomb_ids(tviews(tombstones@)),
            ),
    {
        let n = tombstones.len();
        let ghost all = tviews(tombstones@);
        let mut rest = tombstones;
        let mut i: usize = 0;
        proof {
            assert(tomb_ids(all.take(0)) =~= Set::<Seq<char>>::empty());
            assert(tomb_ids(tviews(old(self).message_tombstones@)).union(Set::empty()) =~= tomb_ids(tviews(old(self).message_tombstones@)));
        }
        while i < n
            invariant
                i <= n,
                n == all.len(),
                all == tviews(tombstones@),
                tviews(rest@) == all.skip(i as int),
                tomb_ids(tviews(self.message_tombstones@)) == tomb_ids(tviews(old(self).message_tombstones@)).union(
                    tomb_ids(all.take(i as int)),
                ),
            decreases n - i,
        {
            let ghost r0 = rest@;
            proof {
                assert(all.skip(i as int).len() == n - i);
                assert(tviews(r0).len() == r0.len());
                assert(tviews(r0)[0] == tview(r0[0]));
            }
            let t = rest.remove(0);
            self.record_message_tombstone(t);
            proof {
                let f = |x: TombstoneView| x.0;
                assert(all.take(i + 1) =~= all.take(i as int).push(all[i as int]));
                assert(all.take(i + 1).map_values(f) =~= all.take(i as int).map_values(f) + seq![all[i as int].0]);
                Seq::lemma_to_set_insert_commutes(all.take(i as int).map_values(f), all[i as int].0);
                assert(tomb_ids(tviews(self.message_tombstones@)) =~= tomb_ids(tviews(old(self).message_tombstones@)).union(
                    tomb_ids(all.take(i + 1)),
                ));
                assert(rest@ =~= r0.subrange(1, r0.len() as int));
                assert forall|k: int| 0 <= k < tviews(rest@).len() implies #[trigger] tviews(rest@)[k] == all.skip(i + 1)[k] by {
                    assert(tviews(rest@)[k] == tview(r0[k + 1]));
                    assert(tviews(r0)[k + 1] == all.skip(i as int)[k + 1]);
                }
                assert(tviews(rest@) =~= all.skip(i + 1));
            }
            i = i + 1;
        }
        assert(all.take(n as int) =~= all);
    }

    /// True when persisted state has a tombstone for this message.
    pub fn has_message_tombstone(&self, message_id: &str) -> (b: bool)
        ensures
            b == exists|i: int| 0 <= i < self.message_tombstones@.len() && #[trigger] self.message_tombstones@[i].message_id@ == message_id@,
    {
        let n = self.message_tombstones.len();
        let mut i: usize = 0;
        while i < n
            invariant
                n == self.message_tombstones@.len(),
                i <= n,
                forall|j: int| 0 <= j < i ==> #[trigger] self.message_tombstones@[j].message_id@ != message_id@,
            decreases n - i,
        {
            if str_equal(self.message_tombstones[i].message_id.as_str(), message_id) {
                return true;
            }
            i = i + 1;
        }
        false
    }

    /// Tombstone ids in list order, for sync or assertions.
    pub fn message_tombstone_ids(&self) -> (r: Vec<String>)
        ensures
            r@.len() == self.message_tombstones@.len(),
            forall|i: int| 0 <= i < r@.len() ==> #[trigger] r@[i]@ == self.message_tombstones@[i].message_id@,
    {
        let mut out: Vec<String> = Vec::new();
        let n = self.message_tombstones.len();
        let mut i: usize = 0;
        while i < n
            invariant
                n == self.message_tombstones@.len(),
                i <= n,
                out@.len() == i,
                forall|k: int| 0 <= k < i ==> #[trigger] out@[k]@ == self.message_tombstones@[k].message_id@,
            decreases n - i,
        {
            out.push(self.message_tombstones[i].message_id.clone());
            i = i + 1;
        }
        out
    }
}

/// Every pair in `t[0..=i]` away from position `j` is in order.
spec fn sorted_except(t: Seq<TombstoneView>, i: int, j: int) -> bool {
    forall|a: int, b: int| 0 <= a < b <= i && a != j && b != j ==> seq_le(#[trigger] t[a].0, #[trigger] t[b].0)
}

/// The entry at `j` is smaller than every entry after it up to `i`.
spec fn smaller_than_rest(t: Seq<TombstoneView>, i: int, j: int) -> bool {
    forall|b: int| j < b <= i ==> seq_lt(t[j].0, #[trigger] t[b].0)
}

/// Stable insertion sort of tombstones by message id.
fn sort_tombstones(v: &mut Vec<AppMessageTombstoneState>)
    ensures
        tombstones_sorted(tviews(final(v)@)),
        tviews(final(v)@).to_multiset() == tviews(old(v)@).to_multiset(),
{
    let n = v.len();
    if n == 0 {
        return;
    }
    let mut i: usize = 1;
    while i < n
        invariant
            n == v@.len(),
            1 <= i <= n,
            forall|a: int, b: int| 0 <= a < b < i ==> seq_le(#[trigger] tviews(v@)[a].0, #[trigger] tviews(v@)[b].0),
            tviews(v@).to_multiset() == tviews(old(v)@).to_multiset(),
        decreases n - i,
    {
        let mut j: usize = i;
        while j > 0 && str_lt(v[j].message_id.as_str(), v[j - 1].message_id.as_str())
            invariant
                n == v@.len(),
                1 <= i < n,
                j <= i,
                sorted_except(tviews(v@), i as int, j as int),
                smaller_than_rest(tviews(v@), i as int, j as int),
                tviews(v@).to_multiset() == tviews(old(v)@).to_multiset(),
            decreases j,
        {
            let ghost before = v@;
            let ghost tb = tviews(before);
            proof {
                assert(tb[j as int] == tview(before[j as int]));
                assert(tb[j - 1] == tview(before[j - 1]));
            }
            let b = v.remove(j);
            let a = v.remove(j - 1);
            v.insert(j - 1, b);
            v.insert(j, a);
            proof {
                assert(v@ =~= before.update(j - 1, before[j as int]).update(j as int, before[j - 1]));
                let t = tviews(v@);
                assert(t =~= tb.update(j - 1, tb[j as int]).update(j as int, tb[j - 1]));
                lemma_swap_multiset(tb, j - 1, j as int);
                assert(seq_lt(tb[j as int].0, tb[j - 1].0));
                assert forall|x: int, y: int| 0 <= x < y <= i && x != j - 1 && y != j - 1 implies seq_le(#[trigger] t[x].0, #[trigger] t[y].0) by {
                    if y == j {
                        assert(t[y] == tb[j - 1]);
                        assert(t[x] == tb[x]);
                    } else if x == j {
                        assert(t[x] == tb[j - 1]);
                        assert(t[y] == tb[y]);
                    } else {
                        assert(t[x] == tb[x] && t[y] == tb[y]);
                    }
                }
                assert forall|y: int| j - 1 < y <= i implies seq_lt(t[j - 1].0, #[trigger] t[y].0) by {
                    assert(t[j - 1] == tb[j as int]);
                    if y == j {
                        assert(t[y] == tb[j - 1]);
                    } else {
                        assert(t[y] == tb[y]);
                    }
                }
            }
            j = j - 1;
        }
        proof {
            let t = tviews(v@);
            assert forall|a: int, b: int| 0 <= a < b < i + 1 implies seq_le(#[trigger] t[a].0, #[trigger] t[b].0) by {
                if b == j {
                    if j > 0 {
                        lemma_lt_trichotomy(t[j as int].0, t[j - 1].0);
                        assert(seq_le(t[j - 1].0, t[j as int].0));
                        if a < j - 1 {
                            lemma_le_transitive(t[a].0, t[j - 1].0, t[j as int].0);
                        }
                    }
                } else if a == j {
                    assert(seq_lt(t[j as int].0, t[b].0));
                }
            }
        }
        i = i + 1;
    }
}

proof fn lemma_swap_multiset(s: Seq<TombstoneView>, a: int, b: int)
    requires
        0 <= a < b < s.len(),
    ensures
        s.update(a, s[b]).update(b, s[a]).to_multiset() == s.to_multiset(),
{
    let t = s.update(a, s[b]);
    vstd::seq_lib::to_multiset_update(s, a, s[b]);
    vstd::seq_lib::to_multiset_update(t, b, s[a]);
    assert(t[b] == s[b]);
    s.to_multiset_ensures();
    assert(s.contains(s[a]));
    assert(s.contains(s[b]));
    let m = s.to_multiset();
    assert(m.insert(s[b]).remove(s[a]).insert(s[a]).remove(s[b]) =~= m);
}

} // verus!
