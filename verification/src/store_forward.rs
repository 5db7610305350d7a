//! Opportunistic ciphertext-only store-and-forward foundations.
use vstd::prelude::*;
use crate::capability::RelayCapabilityAdvertisement;
use crate::integrity::RelayProtectedEnvelope;
use crate::order::{seq_lt, seq_le, str_lt, lemma_lt_transitive, lemma_lt_trichotomy, lemma_le_total, lemma_le_transitive, lemma_lt_irreflexive};
use crate::text::{bytes_contain, bytes_contains, peers_view, contains_string, str_equal};

verus! {

/// Store-forward queue errors.
#[derive(Clone, Copy, Debug, PartialEq, Eq, Structural)]
pub enum StoreForwardError {
    /// TTL is zero or the message is already expired.
    Expired,
    /// Fanout is zero.
    FanoutExhausted,
    /// Relay-visible bytes contain a caller-supplied plaintext sample.
    VisiblePlaintext,
    /// Recipient is not a current member under the caller's membership proof.
    UnauthorizedRecipient,
    /// Requested TTL would outlive the configured retention window.
    RetentionWindowExceeded,
    /// Local device is not currently configured to act as a volunteer relay.
    VolunteerRelayDisabled,
    /// Queue capacity would be exceeded.
    QueueFull,
    /// Message id is already queued.
    DuplicateMessage,
}

/// Optional local volunteer-relay settings for opportunistic store-forward.
#[derive(Debug, PartialEq, Eq)]
pub struct VolunteerRelaySettings {
    /// Whether this device is willing to hold ciphertext for offline members.
    pub enabled: bool,
    /// Local authenticated peer id; excluded from replication target selection.
    pub local_peer_id: String,
    /// Maximum retained envelopes for this queue.
    pub max_queue_envelopes: usize,
    /// Maximum fanout accepted per queued message.
    pub max_fanout_per_message: usize,
    /// Maximum peer replicas selected for a message.
    pub max_volunteer_relays: usize,
}

impl Clone for VolunteerRelaySettings {
    fn clone(&self) -> (r: Self)
        ensures
            r == *self,
    {
        VolunteerRelaySettings {
            enabled: self.enabled,
            local_peer_id: self.local_peer_id.clone(),
            max_queue_envelopes: self.max_queue_envelopes,
            max_fanout_per_message: self.max_fanout_per_message,
            max_volunteer_relays: self.max_volunteer_relays,
        }
    }
}

impl VolunteerRelaySettings {
    /// Build enabled volunteer settings with normalized non-zero bounds.
    pub fn enabled(local_peer_id: &str) -> (r: Self)
        ensures
            r.enabled,
            r.local_peer_id@ == local_peer_id@,
            r.max_queue_envelopes == 256,
            r.max_fanout_per_message == 4,
            r.max_volunteer_relays == 4,
    {
        VolunteerRelaySettings {
            enabled: true,
            local_peer_id: String::from_str(local_peer_id),
            max_queue_envelopes: 256,
            max_fanout_per_message: 4,
            max_volunteer_relays: 4,
        }
    }

    /// Build disabled settings for clients that refuse volunteer relay work.
    pub fn disabled(local_peer_id: &str) -> (r: Self)
        ensures
            !r.enabled,
            r.local_peer_id@ == local_peer_id@,
            r.max_queue_envelopes == 1,
            r.max_fanout_per_message == 1,
            r.max_volunteer_relays == 0,
    {
        VolunteerRelaySettings {
            enabled: false,
            local_peer_id: String::from_str(local_peer_id),
            max_queue_envelopes: 1,
            max_fanout_per_message: 1,
            max_volunteer_relays: 0,
        }
    }

    /// Bounds raised to at least one; an enabled relay keeps at least one replica.
    pub open spec fn normal(self) -> Self {
        VolunteerRelaySettings {
            enabled: self.enabled,
            local_peer_id: self.local_peer_id,
            max_queue_envelopes: if self.max_queue_envelopes == 0 {
                1
            } else {
                self.max_queue_envelopes
            },
            max_fanout_per_message: if self.max_fanout_per_message == 0 {
                1
            } else {
                self.max_fanout_per_message
            },
            max_volunteer_relays: if self.enabled && self.max_volunteer_relays == 0 {
                1
            } else {
                self.max_volunteer_relays
            },
        }
    }

    fn normalized(self) -> (r: Self)
        ensures
            r == self.normal(),
    {
        let mut s = self;
        if s.max_queue_envelopes == 0 {
            s.max_queue_envelopes = 1;
        }
        if s.max_fanout_per_message == 0 {
            s.max_fanout_per_message = 1;
        }
        if s.enabled && s.max_volunteer_relays == 0 {
            s.max_volunteer_relays = 1;
        }
        s
    }
}

/// Admission policy for one store-forward queue.
#[derive(Debug, PartialEq, Eq)]
pub struct StoreForwardPolicy {
    /// Current members eligible to receive queued ciphertext.
    pub authorized_recipients: Vec<String>,
    /// Maximum TTL accepted by this queue in milliseconds.
    pub max_ttl_ms: u64,
    /// Retention window for this channel/group in milliseconds.
    pub retention_window_ms: u64,
    /// Local volunteer-relay settings.
    pub volunteer: VolunteerRelaySettings,
}

impl Clone for StoreForwardPolicy {
    fn clone(&self) -> (r: Self)
        ensures
            r.authorized_recipients@ == self.authorized_recipients@,
            r.max_ttl_ms == self.max_ttl_ms,
            r.retention_window_ms == self.retention_window_ms,
            r.volunteer == self.volunteer,
    {
        let authorized_recipients = self.authorized_recipients.clone();
        assert(authorized_recipients@ =~= self.authorized_recipients@);
        StoreForwardPolicy {
            authorized_recipients,
            max_ttl_ms: self.max_ttl_ms,
            retention_window_ms: self.retention_window_ms,
            volunteer: self.volunteer.clone(),
        }
    }
}

impl StoreForwardPolicy {
    /// The set of member ids; empty means any recipient.
    pub open spec fn members(&self) -> Set<Seq<char>> {
        peers_view(self.authorized_recipients@)
    }

    /// Does the policy let ciphertext be queued for `recipient`.
    pub open spec fn permits(&self, recipient: Seq<char>) -> bool {
        self.authorized_recipients@.len() == 0 || self.members().contains(recipient)
    }

    /// Create a production policy. Recipients must be current members.
    pub fn new(
        authorized_recipients: &[&str],
        max_ttl_ms: u64,
        retention_window_ms: u64,
        volunteer: VolunteerRelaySettings,
    ) -> (r: Self)
        ensures
            r.authorized_recipients@.len() == authorized_recipients@.len(),
            forall|i: int|
                0 <= i < authorized_recipients@.len() ==> r.authorized_recipients@[i]@
                    == (#[trigger] authorized_recipients@[i])@,
            r.max_ttl_ms == (if max_ttl_ms == 0 { 1 } else { max_ttl_ms }),
            r.retention_window_ms == (if retention_window_ms == 0 { 1 } else { retention_window_ms }),
            r.volunteer == volunteer.normal(),
    {
        let mut members: Vec<String> = Vec::new();
        let n = authorized_recipients.len();
        let mut i: usize = 0;
        while i < n
            invariant
                n == authorized_recipients@.len(),
                i <= n,
                members@.len() == i,
                forall|j: int| 0 <= j < i ==> members@[j]@ == (#[trigger] authorized_recipients@[j])@,
            decreases n - i,
        {
            members.push(String::from_str(authorized_recipients[i]));
            i = i + 1;
        }
        StoreForwardPolicy {
            authorized_recipients: members,
            max_ttl_ms: if max_ttl_ms == 0 { 1 } else { max_ttl_ms },
            retention_window_ms: if retention_window_ms == 0 { 1 } else { retention_window_ms },
            volunteer: volunteer.normalized(),
        }
    }

    /// Harness-compatible policy that allows any recipient but keeps bounded defaults.
    pub fn permissive_harness(local_peer_id: &str) -> (r: Self)
        ensures
            r.authorized_recipients@.len() == 0,
            r.max_ttl_ms == u64::MAX / 4,
            r.retention_window_ms == u64::MAX / 4,
            r.volunteer.enabled,
            r.volunteer.local_peer_id@ == local_peer_id@,
            r.volunteer.max_queue_envelopes == 256,
            r.volunteer.max_fanout_per_message == 4,
            r.volunteer.max_volunteer_relays == 4,
    {
        let none: [&str; 0] = [];
        Self::new(&none, u64::MAX / 4, u64::MAX / 4, VolunteerRelaySettings::enabled(local_peer_id))
    }

    fn permits_recipient(&self, recipient_id: &str) -> (b: bool)
        ensures
            b == self.permits(recipient_id@),
    {
        self.authorized_recipients.len() == 0 || contains_string(
            &self.authorized_recipients,
            recipient_id,
        )
    }
}

impl Default for StoreForwardPolicy {
    fn default() -> (r: Self)
        ensures
            r.authorized_recipients@.len() == 0,
            r.volunteer.enabled,
            r.volunteer.local_peer_id@ == "local"@,
            r.max_ttl_ms == u64::MAX / 4,
            r.retention_window_ms == u64::MAX / 4,
            r.volunteer.max_queue_envelopes == 256,
            r.volunteer.max_fanout_per_message == 4,
            r.volunteer.max_volunteer_relays == 4,
    {
        Self::permissive_harness("local")
    }
}

/// Ciphertext-only envelope held by an opportunistic relay.
#[derive(Debug, PartialEq, Eq)]
pub struct StoreForwardEnvelope {
    /// Stable message id.
    pub message_id: String,
    /// Intended recipient/member id.
    pub recipient_id: String,
    /// Relay-visible protected payload; never a bare ciphertext byte slice.
    pub payload: RelayProtectedEnvelope,
    /// Creation timestamp in deterministic harness milliseconds.
    pub created_at_ms: u64,
    /// Absolute expiration timestamp in deterministic harness milliseconds.
    pub expires_at_ms: u64,
    /// Remaining relay fanout budget.
    pub fanout_remaining: usize,
}

impl Clone for StoreForwardEnvelope {
    fn clone(&self) -> (r: Self)
        ensures
            r.message_id == self.message_id,
            r.recipient_id == self.recipient_id,
            r.payload.same_content(&self.payload),
            r.created_at_ms == self.created_at_ms,
            r.expires_at_ms == self.expires_at_ms,
            r.fanout_remaining == self.fanout_remaining,
    {
        StoreForwardEnvelope {
            message_id: self.message_id.clone(),
            recipient_id: self.recipient_id.clone(),
            payload: self.payload.clone(),
            created_at_ms: self.created_at_ms,
            expires_at_ms: self.expires_at_ms,
            fanout_remaining: self.fanout_remaining,
        }
    }
}

impl StoreForwardEnvelope {
    pub open spec fn live_at(&self, now_ms: u64) -> bool {
        now_ms <= self.expires_at_ms
    }

    /// Expiry minus creation, floored at zero.
    pub open spec fn ttl(&self) -> u64 {
        if self.expires_at_ms >= self.created_at_ms {
            (self.expires_at_ms - self.created_at_ms) as u64
        } else {
            0
        }
    }

    /// Build an envelope from ciphertext and TTL.
    pub fn new(
        message_id: &str,
        recipient_id: &str,
        payload: RelayProtectedEnvelope,
        created_at_ms: u64,
        ttl_ms: u64,
        fanout: usize,
    ) -> (r: Result<Self, StoreForwardError>)
        ensures
            ttl_ms == 0 ==> r == Err::<Self, StoreForwardError>(StoreForwardError::Expired),
            ttl_ms != 0 && fanout == 0 ==> r == Err::<Self, StoreForwardError>(
                StoreForwardError::FanoutExhausted,
            ),
            ttl_ms != 0 && fanout != 0 ==> (r matches Ok(e) && e.message_id@ == message_id@
                && e.recipient_id@ == recipient_id@ && e.payload == payload && e.created_at_ms
                == created_at_ms && e.expires_at_ms == (if created_at_ms + ttl_ms > u64::MAX {
                u64::MAX as int
            } else {
                created_at_ms + ttl_ms
            }) && e.fanout_remaining == fanout),
    {
        if ttl_ms == 0 {
            return Err(StoreForwardError::Expired);
        }
        if fanout == 0 {
            return Err(StoreForwardError::FanoutExhausted);
        }
        Ok(
            StoreForwardEnvelope {
                message_id: String::from_str(message_id),
                recipient_id: String::from_str(recipient_id),
                payload,
                created_at_ms,
                expires_at_ms: created_at_ms.saturating_add(ttl_ms),
                fanout_remaining: fanout,
            },
        )
    }

    /// True when the envelope can still be delivered at `now_ms`.
    pub fn is_live(&self, now_ms: u64) -> (b: bool)
        ensures
            b == self.live_at(now_ms),
    {
        now_ms <= self.expires_at_ms
    }

    /// Original requested TTL in milliseconds, saturating under malformed input.
    pub fn ttl_ms(&self) -> (r: u64)
        ensures
            r == self.ttl(),
    {
        self.expires_at_ms.saturating_sub(self.created_at_ms)
    }

    /// Consume one fanout unit for replication/redelivery.
    pub fn consume_fanout(&mut self) -> (r: Result<(), StoreForwardError>)
        ensures
            old(self).fanout_remaining == 0 ==> r == Err::<(), StoreForwardError>(
                StoreForwardError::FanoutExhausted,
            ) && *final(self) == *old(self),
            old(self).fanout_remaining > 0 ==> r is Ok && *final(self) == (StoreForwardEnvelope {
                fanout_remaining: (old(self).fanout_remaining - 1) as usize,
                ..*old(self)
            }),
    {
        if self.fanout_remaining == 0 {
            return Err(StoreForwardError::FanoutExhausted);
        }
        self.fanout_remaining = self.fanout_remaining - 1;
        Ok(())
    }
}

/// Message ids strictly increase along the sequence.
pub open spec fn ids_sorted(s: Seq<StoreForwardEnvelope>) -> bool {
    forall|i: int, j: int|
        0 <= i < j < s.len() ==> seq_lt((#[trigger] s[i]).message_id@, (#[trigger] s[j]).message_id@)
}

pub open spec fn has_id(s: Seq<StoreForwardEnvelope>, id: Seq<char>) -> bool {
    exists|i: int| 0 <= i < s.len() && (#[trigger] s[i]).message_id@ == id
}

/// Is a candidate a usable volunteer relay at `now_ms`.
pub open spec fn volunteer_eligible(
    c: RelayCapabilityAdvertisement,
    local_peer_id: Seq<char>,
    now_ms: u64,
) -> bool {
    c.peer_id@ != local_peer_id && c.fault_at(now_ms) is None
        && c.relay_capacity.accepts_store_forward
}

/// Ranking order of volunteer candidates: freeload score, loss, RTT, then peer id.
pub open spec fn volunteer_key_le(a: RelayCapabilityAdvertisement, b: RelayCapabilityAdvertisement) -> bool {
    let (fa, fb) = (a.freeload_score(), b.freeload_score());
    fa < fb || (fa == fb && (a.packet_loss_bps < b.packet_loss_bps || (a.packet_loss_bps
        == b.packet_loss_bps && (a.observed_rtt_ms < b.observed_rtt_ms || (a.observed_rtt_ms
        == b.observed_rtt_ms && seq_le(a.peer_id@, b.peer_id@))))))
}

proof fn lemma_volunteer_key_total(a: RelayCapabilityAdvertisement, b: RelayCapabilityAdvertisement)
    ensures
        volunteer_key_le(a, b) || volunteer_key_le(b, a),
{
    lemma_le_total(a.peer_id@, b.peer_id@);
}

proof fn lemma_volunteer_key_transitive(
    a: RelayCapabilityAdvertisement,
    b: RelayCapabilityAdvertisement,
    c: RelayCapabilityAdvertisement,
)
    requires
        volunteer_key_le(a, b),
        volunteer_key_le(b, c),
    ensures
        volunteer_key_le(a, c),
{
    if seq_le(a.peer_id@, b.peer_id@) && seq_le(b.peer_id@, c.peer_id@) {
        lemma_le_transitive(a.peer_id@, b.peer_id@, c.peer_id@);
    }
}

fn volunteer_key_at_most(a: &RelayCapabilityAdvertisement, b: &RelayCapabilityAdvertisement) -> (r: bool)
    ensures
        r == volunteer_key_le(*a, *b),
{
    let fa = a.freeload_score_bps();
    let fb = b.freeload_score_bps();
    if fa != fb {
        return fa < fb;
    }
    if a.packet_loss_bps != b.packet_loss_bps {
        return a.packet_loss_bps < b.packet_loss_bps;
    }
    if a.observed_rtt_ms != b.observed_rtt_ms {
        return a.observed_rtt_ms < b.observed_rtt_ms;
    }
    str_lt(a.peer_id.as_str(), b.peer_id.as_str()) || str_equal(a.peer_id.as_str(), b.peer_id.as_str())
}

fn contains_index(v: &Vec<usize>, x: usize) -> (b: bool)
    ensures
        b == v@.contains(x),
{
    let n = v.len();
    let mut i: usize = 0;
    while i < n
        invariant
            n == v@.len(),
            i <= n,
            forall|j: int| 0 <= j < i ==> v@[j] != x,
        decreases n - i,
    {
        if v[i] == x {
            assert(v@[i as int] == x);
            return true;
        }
        i = i + 1;
    }
    false
}

/// What selecting `picked` (indices into `c`) as volunteer replicas means.
pub open spec fn volunteer_selection(
    c: Seq<RelayCapabilityAdvertisement>,
    picked: Seq<usize>,
    local_peer_id: Seq<char>,
    now_ms: u64,
    limit: usize,
) -> bool {
    &&& picked.len() <= limit
    &&& picked.no_duplicates()
    &&& forall|j: int|
        0 <= j < picked.len() ==> (#[trigger] picked[j]) < c.len() && volunteer_eligible(
            c[picked[j] as int],
            local_peer_id,
            now_ms,
        )
    &&& forall|j: int, k: int|
        0 <= j < k < picked.len() ==> volunteer_key_le(
            c[(#[trigger] picked[j]) as int],
            c[(#[trigger] picked[k]) as int],
        )
    &&& forall|j: int, t: int|
        0 <= j < picked.len() && 0 <= t < c.len() && volunteer_eligible(c[t], local_peer_id, now_ms)
            && !picked.contains(t as usize) ==> volunteer_key_le(
            c[(#[trigger] picked[j]) as int],
            #[trigger] c[t],
        )
    &&& picked.len() < limit ==> forall|t: int|
        0 <= t < c.len() && volunteer_eligible(#[trigger] c[t], local_peer_id, now_ms)
            ==> picked.contains(t as usize)
}

/// Volunteer relays are chosen by lowest freeload score, then lowest packet
/// loss, then lowest round-trip time: no picked relay has a higher freeload
/// score than an eligible relay left out; at equal score none has higher
/// packet loss; at equal score and loss none has a longer round trip.
pub proof fn law_volunteers_rank_by_freeload_loss_then_rtt(
    c: Seq<RelayCapabilityAdvertisement>,
    picked: Seq<usize>,
    local_peer_id: Seq<char>,
    now_ms: u64,
    limit: usize,
    j: int,
    t: int,
)
    requires
        volunteer_selection(c, picked, local_peer_id, now_ms, limit),
        0 <= j < picked.len(),
        0 <= t < c.len(),
        volunteer_eligible(c[t], local_peer_id, now_ms),
        !picked.contains(t as usize),
    ensures
        c[picked[j] as int].freeload_score() <= c[t].freeload_score(),
        c[picked[j] as int].freeload_score() == c[t].freeload_score() ==> c[picked[j] as int].packet_loss_bps
            <= c[t].packet_loss_bps,
        c[picked[j] as int].freeload_score() == c[t].freeload_score() && c[picked[j] as int].packet_loss_bps
            == c[t].packet_loss_bps ==> c[picked[j] as int].observed_rtt_ms <= c[t].observed_rtt_ms,
{
    assert(volunteer_key_le(c[picked[j] as int], c[t]));
}

/// Deterministic in-memory opportunistic store-forward queue.
#[derive(Debug)]
pub struct StoreForwardQueue {
    envelopes: Vec<StoreForwardEnvelope>,
    policy: StoreForwardPolicy,
}

impl StoreForwardQueue {
    /// Envelopes are kept ordered by message id, which also makes ids unique.
    pub closed spec fn wf(&self) -> bool {
        ids_sorted(self.envelopes@)
    }

    /// Queued envelopes in message-id order.
    pub closed spec fn entries(&self) -> Seq<StoreForwardEnvelope> {
        self.envelopes@
    }

    /// The queue's admission policy.
    pub closed spec fn current_policy(&self) -> StoreForwardPolicy {
        self.policy
    }

    /// The check an envelope must pass before it is queued.
    pub open spec fn admission(p: StoreForwardPolicy, e: StoreForwardEnvelope) -> Result<(), StoreForwardError> {
        if !p.volunteer.enabled {
            Err(StoreForwardError::VolunteerRelayDisabled)
        } else if !e.live_at(e.created_at_ms) {
            Err(StoreForwardError::Expired)
        } else if !p.permits(e.recipient_id@) {
            Err(StoreForwardError::UnauthorizedRecipient)
        } else if e.ttl() == 0 || e.ttl() > p.max_ttl_ms {
            Err(StoreForwardError::Expired)
        } else if e.ttl() > p.retention_window_ms {
            Err(StoreForwardError::RetentionWindowExceeded)
        } else if e.fanout_remaining == 0 || e.fanout_remaining > p.volunteer.max_fanout_per_message {
            Err(StoreForwardError::FanoutExhausted)
        } else {
            Ok(())
        }
    }

    /// The outcome of enqueueing `e`.
    pub open spec fn enqueue_outcome(&self, e: StoreForwardEnvelope) -> Result<(), StoreForwardError> {
        if Self::admission(self.current_policy(), e) is Err {
            Self::admission(self.current_policy(), e)
        } else if has_id(self.entries(), e.message_id@) {
            Err(StoreForwardError::DuplicateMessage)
        } else if self.entries().len() >= self.current_policy().volunteer.max_queue_envelopes {
            Err(StoreForwardError::QueueFull)
        } else {
            Ok(())
        }
    }

    /// Is `e` handed to `recipient` by a drain at `now_ms`.
    pub open spec fn delivers(&self, e: StoreForwardEnvelope, recipient: Seq<char>, now_ms: u64) -> bool {
        e.live_at(now_ms) && e.recipient_id@ == recipient && self.current_policy().permits(e.recipient_id@)
    }

    /// Is `e` kept by a drain for `recipient` at `now_ms`.
    pub open spec fn retains(&self, e: StoreForwardEnvelope, recipient: Seq<char>, now_ms: u64) -> bool {
        e.live_at(now_ms) && !(e.recipient_id@ == recipient && self.current_policy().permits(
            e.recipient_id@,
        ))
    }

    /// Create an empty harness-compatible queue.
    pub fn new() -> (r: Self)
        ensures
            r.wf(),
            r.entries().len() == 0,
            r.current_policy().authorized_recipients@.len() == 0,
            r.current_policy().volunteer.enabled,
            r.current_policy().volunteer.local_peer_id@ == "local"@,
            r.current_policy().max_ttl_ms == u64::MAX / 4,
            r.current_policy().retention_window_ms == u64::MAX / 4,
            r.current_policy().volunteer.max_queue_envelopes == 256,
            r.current_policy().volunteer.max_fanout_per_message == 4,
            r.current_policy().volunteer.max_volunteer_relays == 4,
    {
        StoreForwardQueue { envelopes: Vec::new(), policy: StoreForwardPolicy::default() }
    }

    /// Create an empty queue with explicit production admission policy.
    pub fn with_policy(policy: StoreForwardPolicy) -> (r: Self)
        ensures
            r.wf(),
            r.entries().len() == 0,
            r.current_policy() == policy,
    {
        StoreForwardQueue { envelopes: Vec::new(), policy }
    }

    /// Queue admission policy.
    pub fn policy(&self) -> (r: &StoreForwardPolicy)
        ensures
            *r == self.current_policy(),
    {
        &self.policy
    }

    fn validate_envelope(&self, envelope: &StoreForwardEnvelope) -> (r: Result<(), StoreForwardError>)
        ensures
            r == Self::admission(self.current_policy(), *envelope),
    {
        if !self.policy.volunteer.enabled {
            return Err(StoreForwardError::VolunteerRelayDisabled);
        }
        if !envelope.is_live(envelope.created_at_ms) {
            return Err(StoreForwardError::Expired);
        }
        if !self.policy.permits_recipient(envelope.recipient_id.as_str()) {
            return Err(StoreForwardError::UnauthorizedRecipient);
        }
        let ttl_ms = envelope.ttl_ms();
        if ttl_ms == 0 || ttl_ms > self.policy.max_ttl_ms {
            return Err(StoreForwardError::Expired);
        }
        if ttl_ms > self.policy.retention_window_ms {
            return Err(StoreForwardError::RetentionWindowExceeded);
        }
        if envelope.fanout_remaining == 0 || envelope.fanout_remaining
            > self.policy.volunteer.max_fanout_per_message {
            return Err(StoreForwardError::FanoutExhausted);
        }
        Ok(())
    }

    /// Position at which `id` belongs, and whether it is already there.
    fn locate(&self, id: &str) -> (r: (usize, bool))
        requires
            self.wf(),
        ensures
            r.0 <= self.entries().len(),
            forall|i: int| 0 <= i < r.0 ==> seq_lt((#[trigger] self.entries()[i]).message_id@, id@),
            !r.1 ==> forall|i: int|
                r.0 <= i < self.entries().len() ==> seq_lt(id@, (#[trigger] self.entries()[i]).message_id@),
            r.1 <==> has_id(self.entries(), id@),
    {
        let n = self.envelopes.len();
        let mut i: usize = 0;
        while i < n && str_lt(self.envelopes[i].message_id.as_str(), id)
            invariant
                n == self.envelopes@.len(),
                i <= n,
                forall|j: int| 0 <= j < i ==> seq_lt((#[trigger] self.envelopes@[j]).message_id@, id@),
            decreases n - i,
        {
            i = i + 1;
        }
        let ghost s = self.envelopes@;
        let found = i < n && str_equal(self.envelopes[i].message_id.as_str(), id);
        proof {
            if i < n && !found {
                lemma_lt_trichotomy(s[i as int].message_id@, id@);
                assert forall|j: int| i <= j < s.len() implies seq_lt(id@, (#[trigger] s[j]).message_id@) by {
                    if j > i {
                        lemma_lt_transitive(id@, s[i as int].message_id@, s[j].message_id@);
                    }
                }
            }
            if found {
                assert(s[i as int].message_id@ == id@);
            } else {
                assert forall|j: int| 0 <= j < s.len() implies (#[trigger] s[j]).message_id@ != id@ by {
                    lemma_lt_trichotomy(s[j].message_id@, id@);
                }
            }
        }
        (i, found)
    }

    /// Enqueue a ciphertext-only envelope if it satisfies policy and has live TTL.
    pub fn enqueue(&mut self, envelope: StoreForwardEnvelope) -> (r: Result<(), StoreForwardError>)
        requires
            old(self).wf(),
        ensures
            final(self).wf(),
            final(self).current_policy() == old(self).current_policy(),
            r == old(self).enqueue_outcome(envelope),
            r is Err ==> final(self).entries() == old(self).entries(),
            r is Ok ==> exists|p: int|
                0 <= p <= old(self).entries().len() && final(self).entries() == old(
                    self,
                ).entries().insert(p, envelope),
    {
        match self.validate_envelope(&envelope) {
            Err(e) => return Err(e),
            Ok(()) => {},
        }
        let (p, found) = self.locate(envelope.message_id.as_str());
        if found {
            return Err(StoreForwardError::DuplicateMessage);
        }
        if self.envelopes.len() >= self.policy.volunteer.max_queue_envelopes {
            return Err(StoreForwardError::QueueFull);
        }
        let ghost s = self.envelopes@;
        let ghost id = envelope.message_id@;
        self.envelopes.insert(p, envelope);
        proof {
            let t = self.envelopes@;
            assert(t =~= s.insert(p as int, envelope));
            assert forall|i: int, j: int| 0 <= i < j < t.len() implies seq_lt(
                (#[trigger] t[i]).message_id@,
                (#[trigger] t[j]).message_id@,
            ) by {
                if j < p {
                    assert(t[i] == s[i] && t[j] == s[j]);
                } else if j == p {
                    assert(t[i] == s[i]);
                } else if i < p {
                    assert(t[i] == s[i] && t[j] == s[j - 1]);
                    lemma_lt_transitive(s[i].message_id@, id, s[j - 1].message_id@);
                } else if i == p {
                    assert(t[j] == s[j - 1]);
                } else {
                    assert(t[i] == s[i - 1] && t[j] == s[j - 1]);
                }
            }
        }
        Ok(())
    }

    /// Enqueue an envelope after checking it does not expose a known plaintext sample.
    ///
    /// Relays do not know plaintext in production. This harness-facing guard keeps the
    /// store-forward API ciphertext-only and lets deterministic tests assert that
    /// packets produced by higher layers do not visibly carry expected plaintext.
    pub fn enqueue_ciphertext_only(
        &mut self,
        envelope: StoreForwardEnvelope,
        forbidden_plaintext: &[u8],
    ) -> (r: Result<(), StoreForwardError>)
        requires
            old(self).wf(),
        ensures
            final(self).wf(),
            final(self).current_policy() == old(self).current_policy(),
            (forbidden_plaintext@.len() != 0 && bytes_contain(
                envelope.payload.visible(),
                forbidden_plaintext@,
            )) ==> r == Err::<(), StoreForwardError>(StoreForwardError::VisiblePlaintext)
                && final(self).entries() == old(self).entries(),
            !(forbidden_plaintext@.len() != 0 && bytes_contain(
                envelope.payload.visible(),
                forbidden_plaintext@,
            )) ==> r == old(self).enqueue_outcome(envelope) && (r is Err ==> final(self).entries()
                == old(self).entries()) && (r is Ok ==> exists|p: int|
                0 <= p <= old(self).entries().len() && final(self).entries() == old(
                    self,
                ).entries().insert(p, envelope)),
    {
        if forbidden_plaintext.len() != 0 {
            let visible = envelope.payload.visible_bytes();
            if bytes_contains(visible.as_slice(), forbidden_plaintext) {
                return Err(StoreForwardError::VisiblePlaintext);
            }
        }
        self.enqueue(envelope)
    }

    /// Select volunteer relay targets from authenticated capability advertisements.
    pub fn volunteer_targets(&self, candidates: &[RelayCapabilityAdvertisement], now_ms: u64) -> (r:
        Vec<String>)
        ensures
            !self.current_policy().volunteer.enabled ==> r@.len() == 0,
            self.current_policy().volunteer.enabled ==> exists|picked: Seq<usize>|
                #[trigger] volunteer_selection(
                    candidates@,
                    picked,
                    self.current_policy().volunteer.local_peer_id@,
                    now_ms,
                    self.current_policy().volunteer.max_volunteer_relays,
                ) && r@.len() == picked.len() && forall|j: int|
                    0 <= j < picked.len() ==> r@[j] == candidates@[picked[j] as int].peer_id,
    {
        if !self.policy.volunteer.enabled {
            return Vec::new();
        }
        let local = self.policy.volunteer.local_peer_id.as_str();
        let limit = self.policy.volunteer.max_volunteer_relays;
        let ghost c = candidates@;
        let n = candidates.len();
        let mut picked: Vec<usize> = Vec::new();
        let mut out: Vec<String> = Vec::new();
        while picked.len() < limit
            invariant
                n == c.len(),
                c == candidates@,
                local@ == self.policy.volunteer.local_peer_id@,
                limit == self.policy.volunteer.max_volunteer_relays,
                picked@.len() <= limit,
                picked@.no_duplicates(),
                out@.len() == picked@.len(),
                forall|j: int| 0 <= j < picked@.len() ==> out@[j] == c[(#[trigger] picked@[j]) as int].peer_id,
                forall|j: int|
                    0 <= j < picked@.len() ==> (#[trigger] picked@[j]) < c.len() && volunteer_eligible(
                        c[picked@[j] as int],
                        local@,
                        now_ms,
                    ),
                forall|j: int, k: int|
                    0 <= j < k < picked@.len() ==> volunteer_key_le(
                        c[(#[trigger] picked@[j]) as int],
                        c[(#[trigger] picked@[k]) as int],
                    ),
                forall|j: int, t: int|
                    0 <= j < picked@.len() && 0 <= t < c.len() && volunteer_eligible(c[t], local@, now_ms)
                        && !picked@.contains(t as usize) ==> volunteer_key_le(
                        c[(#[trigger] picked@[j]) as int],
                        #[trigger] c[t],
                    ),
            ensures
                volunteer_selection(c, picked@, local@, now_ms, limit),
                out@.len() == picked@.len(),
                forall|j: int| 0 <= j < picked@.len() ==> out@[j] == c[(#[trigger] picked@[j]) as int].peer_id,
            decreases limit - picked@.len(),
        {
            let mut best: Option<usize> = None;
            let mut i: usize = 0;
            while i < n
                invariant
                    n == c.len(),
                    c == candidates@,
                    i <= n,
                    local@ == self.policy.volunteer.local_peer_id@,
                    match best {
                        Some(b) => b < n && volunteer_eligible(c[b as int], local@, now_ms)
                            && !picked@.contains(b) && forall|t: int|
                            0 <= t < i && volunteer_eligible(#[trigger] c[t], local@, now_ms)
                                && !picked@.contains(t as usize) ==> volunteer_key_le(c[b as int], c[t]),
                        None => forall|t: int|
                            0 <= t < i && volunteer_eligible(#[trigger] c[t], local@, now_ms)
                                ==> picked@.contains(t as usize),
                    },
                decreases n - i,
            {
                let cand = &candidates[i];
                let eligible = !str_equal(cand.peer_id.as_str(), local) && cand.validate_at(now_ms).is_ok()
                    && cand.relay_capacity.accepts_store_forward;
                if eligible && !contains_index(&picked, i) {
                    match best {
                        None => {
                            best = Some(i);
                            proof {
                                assert forall|t: int|
                                    0 <= t < i + 1 && volunteer_eligible(#[trigger] c[t], local@, now_ms)
                                        && !picked@.contains(t as usize) implies volunteer_key_le(c[i as int], c[t]) by {
                                    if t == i {
                                        lemma_volunteer_key_total(c[t], c[t]);
                                    }
                                }
                            }
                        },
                        Some(b) => {
                            if !volunteer_key_at_most(&candidates[b], cand) {
                                best = Some(i);
                                proof {
                                    lemma_volunteer_key_total(c[b as int], c[i as int]);
                                    assert forall|t: int|
                                        0 <= t < i + 1 && volunteer_eligible(#[trigger] c[t], local@, now_ms)
                                            && !picked@.contains(t as usize) implies volunteer_key_le(c[i as int], c[t]) by {
                                        if t < i {
                                            lemma_volunteer_key_transitive(c[i as int], c[b as int], c[t]);
                                        } else {
                                            lemma_volunteer_key_total(c[t], c[t]);
                                        }
                                    }
                                }
                            }
                        },
                    }
                }
                i = i + 1;
            }
            match best {
                None => {
                    break;
                },
                Some(b) => {
                    let ghost before = picked@;
                    picked.push(b);
                    out.push(candidates[b].peer_id.clone());
                    proof {
                        let pk = picked@;
                        assert(pk == before.push(b));
                        assert(pk.no_duplicates()) by {
                            assert forall|x: int, y: int| 0 <= x < pk.len() && 0 <= y < pk.len() && x != y implies pk[x] != pk[y] by {
                                if x == before.len() {
                                    assert(pk[y] == before[y]);
                                    if before[y] == b {
                                        assert(before.contains(b));
                                    }
                                } else if y == before.len() {
                                    assert(pk[x] == before[x]);
                                    if before[x] == b {
                                        assert(before.contains(b));
                                    }
                                } else {
                                    assert(pk[x] == before[x] && pk[y] == before[y]);
                                }
                            }
                        }
                        assert forall|j: int, k: int| 0 <= j < k < pk.len() implies volunteer_key_le(
                            c[(#[trigger] pk[j]) as int],
                            c[(#[trigger] pk[k]) as int],
                        ) by {
                            if k == before.len() {
                                assert(pk[j] == before[j]);
                            } else {
                                assert(pk[j] == before[j] && pk[k] == before[k]);
                            }
                        }
                        assert forall|j: int, t: int|
                            0 <= j < pk.len() && 0 <= t < c.len() && volunteer_eligible(c[t], local@, now_ms)
                                && !pk.contains(t as usize) implies volunteer_key_le(
                                c[(#[trigger] pk[j]) as int],
                                #[trigger] c[t],
                            ) by {
                            if before.contains(t as usize) {
                                let w = choose|w: int| 0 <= w < before.len() && before[w] == t as usize;
                                assert(pk[w] == t as usize);
                            }
                            if t == b {
                                assert(pk[before.len() as int] == b);
                            }
                            if j < before.len() {
                                assert(pk[j] == before[j]);
                            }
                        }
                        assert forall|j: int| 0 <= j < pk.len() implies out@[j] == c[(#[trigger] pk[j]) as int].peer_id by {
                            if j < before.len() {
                                assert(pk[j] == before[j]);
                            }
                        }
                    }
                },
            }
        }
        out
    }

    /// Drain live envelopes for a recipient and drop expired ones.
    pub fn drain_for_recipient(&mut self, recipient_id: &str, now_ms: u64) -> (r: Vec<
        StoreForwardEnvelope,
    >)
        requires
            old(self).wf(),
        ensures
            final(self).wf(),
            final(self).current_policy() == old(self).current_policy(),
            r@ == old(self).entries().filter(
                |e: StoreForwardEnvelope| old(self).delivers(e, recipient_id@, now_ms),
            ),
            final(self).entries() == old(self).entries().filter(
                |e: StoreForwardEnvelope| old(self).retains(e, recipient_id@, now_ms),
            ),
    {
        let ghost orig = self.envelopes@;
        let ghost q = *self;
        let total = self.envelopes.len();
        assert(orig.len() == total);
        let mut rest: Vec<StoreForwardEnvelope> = Vec::new();
        std::mem::swap(&mut rest, &mut self.envelopes);
        let mut deliver: Vec<StoreForwardEnvelope> = Vec::new();
        let mut keep: Vec<StoreForwardEnvelope> = Vec::new();
        let ghost dpred = |e: StoreForwardEnvelope| q.delivers(e, recipient_id@, now_ms);
        let ghost kpred = |e: StoreForwardEnvelope| q.retains(e, recipient_id@, now_ms);
        let mut i: usize = 0;
        while rest.len() > 0
            invariant
                i <= orig.len(),
                orig.len() <= usize::MAX,
                rest@ == orig.skip(i as int),
                deliver@ == orig.take(i as int).filter(dpred),
                keep@ == orig.take(i as int).filter(kpred),
                self.policy == q.policy,
                q.policy == old(self).policy,
                q.envelopes@ == orig,
                dpred == (|e: StoreForwardEnvelope| q.delivers(e, recipient_id@, now_ms)),
                kpred == (|e: StoreForwardEnvelope| q.retains(e, recipient_id@, now_ms)),
            decreases rest@.len(),
        {
            let e = rest.remove(0);
            proof {
                assert(orig.take(i + 1) =~= orig.take(i as int).push(e));
                assert(rest@ =~= orig.skip(i + 1));
                orig.take(i as int).lemma_filter_push(e, dpred);
                orig.take(i as int).lemma_filter_push(e, kpred);
            }
            if e.is_live(now_ms) {
                if str_equal(e.recipient_id.as_str(), recipient_id) && self.policy.permits_recipient(
                    e.recipient_id.as_str(),
                ) {
                    assert(dpred(e) && !kpred(e));
                    deliver.push(e);
                } else {
                    assert(!dpred(e) && kpred(e));
                    keep.push(e);
                }
            } else {
                assert(!dpred(e) && !kpred(e));
            }
            i = i + 1;
        }
        proof {
            assert(orig.take(i as int) =~= orig);
            assert((|e: StoreForwardEnvelope| old(self).delivers(e, recipient_id@, now_ms)) =~= dpred);
            assert((|e: StoreForwardEnvelope| old(self).retains(e, recipient_id@, now_ms)) =~= kpred);
            let k = keep@;
            assert forall|a: int, b: int| 0 <= a < b < k.len() implies seq_lt(
                (#[trigger] k[a]).message_id@,
                (#[trigger] k[b]).message_id@,
            ) by {
                lemma_filter_sorted(orig, kpred, a, b);
            }
        }
        self.envelopes = keep;
        deliver
    }

    /// Number of queued live/expired envelopes currently retained.
    pub fn len(&self) -> (n: usize)
        ensures
            n == self.entries().len(),
    {
        self.envelopes.len()
    }

    /// True when the queue is empty.
    pub fn is_empty(&self) -> (b: bool)
        ensures
            b == (self.entries().len() == 0),
    {
        self.envelopes.len() == 0
    }
}

/// A filtered id-sorted sequence is still id-sorted.
proof fn lemma_filter_sorted(
    s: Seq<StoreForwardEnvelope>,
    pred: spec_fn(StoreForwardEnvelope) -> bool,
    a: int,
    b: int,
)
    requires
        ids_sorted(s),
        0 <= a < b < s.filter(pred).len(),
    ensures
        seq_lt(s.filter(pred)[a].message_id@, s.filter(pred)[b].message_id@),
    decreases s.len(),
{
    reveal(Seq::filter);
    let t = s.drop_last();
    assert(ids_sorted(t)) by {
        assert forall|i: int, j: int| 0 <= i < j < t.len() implies seq_lt(
            (#[trigger] t[i]).message_id@,
            (#[trigger] t[j]).message_id@,
        ) by {
            assert(t[i] == s[i] && t[j] == s[j]);
        }
    }
    let f = t.filter(pred);
    let sf = s.filter(pred);
    if pred(s.last()) {
        assert(sf == f.push(s.last()));
        if b == f.len() {
            assert(sf[a] == f[a]);
            lemma_filter_member(t, pred, a);
            let k = choose|k: int| 0 <= k < t.len() && t[k] == f[a];
            assert(s[k] == t[k]);
            assert(sf[b] == s[s.len() - 1]);
        } else {
            lemma_filter_sorted(t, pred, a, b);
            assert(sf[a] == f[a] && sf[b] == f[b]);
        }
    } else {
        assert(sf == f);
        lemma_filter_sorted(t, pred, a, b);
    }
}

/// Every element of a filtered sequence comes from the original.
proof fn lemma_filter_member(s: Seq<StoreForwardEnvelope>, pred: spec_fn(StoreForwardEnvelope) -> bool, a: int)
    requires
        0 <= a < s.filter(pred).len(),
    ensures
        exists|k: int| 0 <= k < s.len() && s[k] == s.filter(pred)[a],
    decreases s.len(),
{
    reveal(Seq::filter);
    let t = s.drop_last();
    if pred(s.last()) && a == t.filter(pred).len() {
        assert(s[s.len() - 1] == s.filter(pred)[a]);
    } else {
        lemma_filter_member(t, pred, a);
        let k = choose|k: int| 0 <= k < t.len() && t[k] == t.filter(pred)[a];
        assert(s[k] == t[k]);
    }
}

impl Default for StoreForwardQueue {
    fn default() -> (r: Self)
        ensures
            r.wf(),
            r.entries().len() == 0,
    {
        Self::new()
    }
}

} // verus!
