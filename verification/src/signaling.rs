//! Signaling/rendezvous adapter contracts for DM, group, and channel bootstrap.
//!
//! Provider-visible rendezvous is kept apart from WebRTC media/data transport.
//! Adapters exchange opaque, already-sealed negotiation payloads only.
use vstd::prelude::*;
use vstd::utf8::*;
use core::time::Duration;
use crate::digest::{sha256, sha256_of, push_bytes, push_str_bytes};
use crate::keyed::KeyedList;
use crate::text::{all_ws, contains_str, is_trimmed, is_hex_digit, join2, lower_hex, lower_hex_spec, only_ws, starts_with, str_contains, str_starts_with, text, trimmed};
use crate::transport::{Endpoint, TransportError};

verus! {

/// Whether a duration is zero, as `Duration::is_zero` reports it.
pub uninterp spec fn duration_is_zero(d: Duration) -> bool;

/// Calls `Duration::is_zero`. Trusted: the result is that function of `d`
/// alone; nothing else is said of it here.
#[verifier::external_body]
fn is_zero_duration(d: &Duration) -> (b: bool)
    ensures
        b == duration_is_zero(*d),
{
    d.is_zero()
}

/// Required production signaling adapter families.
#[derive(Clone, Copy, Debug, PartialEq, Eq, PartialOrd, Ord, Structural)]
pub enum SignalingAdapterKind {
    /// MQTT broker/WebSocket publish-subscribe rendezvous.
    Mqtt,
    /// Nostr relay event rendezvous.
    Nostr,
    /// IPFS/libp2p PubSub rendezvous.
    IpfsPubsub,
    /// Separate Rust QUIC signaling service adapter.
    DiscryptQuicRendezvous,
}

impl SignalingAdapterKind {
    pub open spec fn name(self) -> Seq<char> {
        match self {
            SignalingAdapterKind::Mqtt => "mqtt"@,
            SignalingAdapterKind::Nostr => "nostr"@,
            SignalingAdapterKind::IpfsPubsub => "ipfs_pubsub"@,
            SignalingAdapterKind::DiscryptQuicRendezvous => "discrypt_quic_rendezvous"@,
        }
    }

    /// Endpoint schemes allowed for this adapter kind.
    pub open spec fn schemes(self) -> Seq<Seq<char>> {
        match self {
            SignalingAdapterKind::Mqtt => seq!["mqtts://"@, "wss://"@],
            SignalingAdapterKind::Nostr => seq!["wss://"@],
            SignalingAdapterKind::IpfsPubsub => seq!["ipfs://"@, "libp2p://"@],
            SignalingAdapterKind::DiscryptQuicRendezvous => seq!["quic://"@, "https://"@],
        }
    }

    /// Stable adapter id used in invites, policy storage, and tests.
    pub fn as_str(self) -> (r: &'static str)
        ensures
            r@ == self.name(),
    {
        match self {
            SignalingAdapterKind::Mqtt => "mqtt",
            SignalingAdapterKind::Nostr => "nostr",
            SignalingAdapterKind::IpfsPubsub => "ipfs_pubsub",
            SignalingAdapterKind::DiscryptQuicRendezvous => "discrypt_quic_rendezvous",
        }
    }

    /// Endpoint schemes allowed for this adapter kind.
    pub fn allowed_schemes(self) -> (r: Vec<&'static str>)
        ensures
            r@.len() == self.schemes().len(),
            forall|i: int| 0 <= i < r@.len() ==> (#[trigger] r@[i])@ == self.schemes()[i],
    {
        let mut v: Vec<&'static str> = Vec::new();
        match self {
            SignalingAdapterKind::Mqtt => {
                v.push("mqtts://");
                v.push("wss://");
            },
            SignalingAdapterKind::Nostr => {
                v.push("wss://");
            },
            SignalingAdapterKind::IpfsPubsub => {
                v.push("ipfs://");
                v.push("libp2p://");
            },
            SignalingAdapterKind::DiscryptQuicRendezvous => {
                v.push("quic://");
                v.push("https://");
            },
        }
        v
    }
}

/// Product scope whose policy selects signaling and ICE profiles.
#[derive(Debug, PartialEq, Eq)]
pub enum AdapterScope {
    /// App/global default policy.
    AppDefault,
    /// Pairwise DM conversation policy.
    Dm { dm_id: String },
    /// Group/server policy inherited by channels.
    Group { group_id: String },
    /// Channel-level override policy.
    Channel { group_id: String, channel_id: String },
    /// Initial invite bootstrap snapshot before persisted scope policy exists.
    InviteBootstrap { invite_id: String },
}

impl AdapterScope {
    pub open spec fn canonical(&self) -> Seq<char> {
        match self {
            AdapterScope::AppDefault => "app:default"@,
            AdapterScope::Dm { dm_id } => "dm:"@ + dm_id@,
            AdapterScope::Group { group_id } => "group:"@ + group_id@,
            AdapterScope::Channel { group_id, channel_id } => "channel:"@ + group_id@ + ":"@
                + channel_id@,
            AdapterScope::InviteBootstrap { invite_id } => "invite:"@ + invite_id@,
        }
    }

    /// Non-PII stable material used when deriving rendezvous topics.
    pub fn canonical_scope(&self) -> (r: String)
        ensures
            r@ == self.canonical(),
    {
        match self {
            AdapterScope::AppDefault => text("app:default"),
            AdapterScope::Dm { dm_id } => join2("dm:", dm_id.as_str()),
            AdapterScope::Group { group_id } => join2("group:", group_id.as_str()),
            AdapterScope::Channel { group_id, channel_id } => {
                let mut r = join2("channel:", group_id.as_str());
                r.append(":");
                r.append(channel_id.as_str());
                r
            },
            AdapterScope::InviteBootstrap { invite_id } => join2("invite:", invite_id.as_str()),
        }
    }
}

/// At least 32 bytes of ASCII hex digits.
pub open spec fn is_hex_commitment(v: Seq<char>) -> bool {
    encode_utf8(v).len() >= 32 && forall|i: int| 0 <= i < v.len() ==> is_hex_digit(#[trigger] v[i])
}

fn is_commitment(value: &str) -> (b: bool)
    ensures
        b == is_hex_commitment(value@),
{
    value.as_bytes().len() >= 32 && crate::text::all_hex_digits(value)
}

/// `r` failed with `Unavailable(m)`.
pub open spec fn unavailable<T>(r: Result<T, TransportError>, m: Seq<char>) -> bool {
    r matches Err(TransportError::Unavailable(x)) && x@ == m
}

/// Does `v` start with one of `schemes`.
pub open spec fn has_scheme(v: Seq<char>, schemes: Seq<Seq<char>>) -> bool {
    exists|i: int| 0 <= i < schemes.len() && starts_with(v, #[trigger] schemes[i])
}

/// Endpoint plus trust metadata for one provider.
#[derive(Debug, PartialEq, Eq)]
pub struct SignalingProviderEndpoint {
    /// Broker, relay, bootstrap peer, or QUIC/HTTPS endpoint.
    pub endpoint: Endpoint,
    /// Service fingerprint or public-key commitment expected by the invite/policy.
    pub trust_fingerprint: String,
}

impl Clone for SignalingProviderEndpoint {
    fn clone(&self) -> (r: Self)
        ensures
            r == *self,
    {
        SignalingProviderEndpoint {
            endpoint: self.endpoint.clone(),
            trust_fingerprint: self.trust_fingerprint.clone(),
        }
    }
}

/// Why an endpoint/fingerprint pair is unusable for `kind`, if it is.
pub open spec fn provider_fault(kind: SignalingAdapterKind, endpoint: Seq<char>, fingerprint: Seq<char>) -> Option<Seq<char>> {
    if !is_trimmed(endpoint) || !has_scheme(endpoint, kind.schemes()) {
        Some(kind.name() + " endpoint has unsupported scheme: "@ + endpoint)
    } else if !is_hex_commitment(fingerprint) {
        Some(kind.name() + " endpoint trust fingerprint is invalid"@)
    } else {
        None
    }
}

pub open spec fn reports_unavailable<T>(r: Result<T, TransportError>, f: Option<Seq<char>>) -> bool {
    match f {
        None => r is Ok,
        Some(m) => unavailable(r, m),
    }
}

impl SignalingProviderEndpoint {
    /// Build and validate an endpoint for an adapter kind.
    pub fn new(kind: SignalingAdapterKind, endpoint: &str, trust_fingerprint: &str) -> (r: Result<Self, TransportError>)
        ensures
            reports_unavailable(r, provider_fault(kind, endpoint@, trust_fingerprint@)),
            r matches Ok(p) ==> p.endpoint.0@ == endpoint@ && p.trust_fingerprint@ == trust_fingerprint@,
    {
        let provider = SignalingProviderEndpoint {
            endpoint: Endpoint::new(endpoint),
            trust_fingerprint: String::from_str(trust_fingerprint),
        };
        match provider.validate(kind) {
            Err(e) => Err(e),
            Ok(()) => Ok(provider),
        }
    }

    /// Validate scheme and fingerprint shape.
    pub fn validate(&self, kind: SignalingAdapterKind) -> (r: Result<(), TransportError>)
        ensures
            reports_unavailable(r, provider_fault(kind, self.endpoint.0@, self.trust_fingerprint@)),
    {
        let endpoint = self.endpoint.0.as_str();
        let schemes = kind.allowed_schemes();
        let mut any = false;
        let mut i: usize = 0;
        while i < schemes.len()
            invariant
                i <= schemes@.len(),
                schemes@.len() == kind.schemes().len(),
                forall|k: int| 0 <= k < schemes@.len() ==> (#[trigger] schemes@[k])@ == kind.schemes()[k],
                any == exists|k: int| 0 <= k < i && starts_with(endpoint@, #[trigger] kind.schemes()[k]),
            decreases schemes@.len() - i,
        {
            if str_starts_with(endpoint, schemes[i]) {
                any = true;
            }
            i = i + 1;
        }
        if !trimmed(endpoint) || !any {
            let mut m = text(kind.as_str());
            m.append(" endpoint has unsupported scheme: ");
            m.append(endpoint);
            return Err(TransportError::Unavailable(m));
        }
        if !is_commitment(self.trust_fingerprint.as_str()) {
            return Err(TransportError::Unavailable(join2(kind.as_str(), " endpoint trust fingerprint is invalid")));
        }
        Ok(())
    }
}

/// First failing endpoint of a list, in order.
pub open spec fn first_provider_fault(s: Seq<SignalingProviderEndpoint>, kind: SignalingAdapterKind) -> Option<Seq<char>>
    decreases s.len(),
{
    if s.len() == 0 {
        None
    } else if provider_fault(kind, s[0].endpoint.0@, s[0].trust_fingerprint@) is Some {
        provider_fault(kind, s[0].endpoint.0@, s[0].trust_fingerprint@)
    } else {
        first_provider_fault(s.drop_first(), kind)
    }
}

/// Ordered adapter profile persisted for an app, DM, group, channel, or invite.
#[derive(Debug, PartialEq, Eq)]
pub struct SignalingAdapterProfile {
    /// Stable profile id.
    pub profile_id: String,
    /// Adapter family.
    pub kind: SignalingAdapterKind,
    /// Ordered provider endpoints for the adapter.
    pub endpoints: Vec<SignalingProviderEndpoint>,
    /// Publish/subscribe TTL.
    pub ttl: Duration,
    /// Provider-visible metadata caveat.
    pub metadata_posture: String,
}

/// Why a profile with these parts is unusable, if it is.
pub open spec fn profile_fault(
    profile_id: Seq<char>,
    kind: SignalingAdapterKind,
    endpoints: Seq<SignalingProviderEndpoint>,
    ttl: Duration,
    metadata_posture: Seq<char>,
) -> Option<Seq<char>> {
    if all_ws(profile_id) || endpoints.len() == 0 || duration_is_zero(ttl) || all_ws(metadata_posture) {
        Some("signaling adapter profile is incomplete"@)
    } else {
        first_provider_fault(endpoints, kind)
    }
}

impl SignalingAdapterProfile {
    pub open spec fn fault(&self) -> Option<Seq<char>> {
        profile_fault(self.profile_id@, self.kind, self.endpoints@, self.ttl, self.metadata_posture@)
    }

    /// Construct and validate one profile.
    pub fn new(
        profile_id: &str,
        kind: SignalingAdapterKind,
        endpoints: Vec<SignalingProviderEndpoint>,
        ttl: Duration,
        metadata_posture: &str,
    ) -> (r: Result<Self, TransportError>)
        ensures
            reports_unavailable(r, profile_fault(profile_id@, kind, endpoints@, ttl, metadata_posture@)),
            r matches Ok(p) ==> p.profile_id@ == profile_id@ && p.kind == kind && p.endpoints == endpoints
                && p.ttl == ttl && p.metadata_posture@ == metadata_posture@,
    {
        let profile = SignalingAdapterProfile {
            profile_id: String::from_str(profile_id),
            kind,
            endpoints,
            ttl,
            metadata_posture: String::from_str(metadata_posture),
        };
        match profile.validate() {
            Err(e) => Err(e),
            Ok(()) => Ok(profile),
        }
    }

    /// Validate endpoint set and UI caveat.
    pub fn validate(&self) -> (r: Result<(), TransportError>)
        ensures
            reports_unavailable(r, self.fault()),
    {
        if only_ws(self.profile_id.as_str()) || self.endpoints.len() == 0 || is_zero_duration(&self.ttl)
            || only_ws(self.metadata_posture.as_str()) {
            return Err(TransportError::Unavailable(text("signaling adapter profile is incomplete")));
        }
        let s = &self.endpoints;
        let n = s.len();
        let mut i: usize = 0;
        assert(s@.skip(0) =~= s@);
        while i < n
            invariant
                n == s@.len(),
                i <= n,
                s@ == self.endpoints@,
                !(all_ws(self.profile_id@) || self.endpoints@.len() == 0 || duration_is_zero(self.ttl)
                    || all_ws(self.metadata_posture@)),
                first_provider_fault(s@, self.kind) == first_provider_fault(s@.skip(i as int), self.kind),
            decreases n - i,
        {
            assert(s@.skip(i as int)[0] == s@[i as int]);
            match s[i].validate(self.kind) {
                Err(e) => return Err(e),
                Ok(()) => {},
            }
            assert(s@.skip(i as int).drop_first() =~= s@.skip(i + 1));
            i = i + 1;
        }
        assert(s@.skip(n as int) =~= Seq::<SignalingProviderEndpoint>::empty());
        Ok(())
    }
}

/// ICE profile selected independently from signaling adapters.
#[derive(Debug, PartialEq, Eq)]
pub struct IceProfile {
    /// Stable ICE profile id.
    pub profile_id: String,
    /// STUN endpoints; the default policy starts with Google's public STUN.
    pub stun_servers: Vec<Endpoint>,
    /// Redacted TURN endpoints. Empty by default.
    pub turn_servers: Vec<Endpoint>,
}

impl Default for IceProfile {
    fn default() -> (r: Self)
        ensures
            r.profile_id@ == "default-public-stun-no-turn"@,
            r.stun_servers@.len() == 1,
            r.stun_servers@[0].0@ == "stun:stun.l.google.com:19302"@,
            r.turn_servers@.len() == 0,
    {
        let mut stun: Vec<Endpoint> = Vec::new();
        stun.push(Endpoint::new("stun:stun.l.google.com:19302"));
        IceProfile {
            profile_id: text("default-public-stun-no-turn"),
            stun_servers: stun,
            turn_servers: Vec::new(),
        }
    }
}

impl IceProfile {
    /// Human-readable default TURN status for UI and docs.
    pub fn turn_status_copy(&self) -> (r: &'static str)
        ensures
            r@ == (if self.turn_servers@.len() == 0 { "TURN not configured"@ } else { "TURN configured"@ }),
    {
        if self.turn_servers.len() == 0 {
            "TURN not configured"
        } else {
            "TURN configured"
        }
    }
}

/// First failing profile of a list, in order.
pub open spec fn first_profile_fault(s: Seq<SignalingAdapterProfile>) -> Option<Seq<char>>
    decreases s.len(),
{
    if s.len() == 0 {
        None
    } else if s[0].fault() is Some {
        s[0].fault()
    } else {
        first_profile_fault(s.drop_first())
    }
}

/// Full connectivity policy selected by product scope.
#[derive(Debug, PartialEq, Eq)]
pub struct ConnectivityPolicy {
    /// Scope this policy belongs to.
    pub scope: AdapterScope,
    /// Ordered signaling adapters to try.
    pub signaling_profiles: Vec<SignalingAdapterProfile>,
    /// ICE/STUN/TURN configuration independent from signaling.
    pub ice_profile: IceProfile,
}

/// Health status used for ordered fallback.
#[derive(Clone, Copy, Debug, PartialEq, Eq, PartialOrd, Ord, Structural)]
pub enum AdapterHealth {
    /// Provider is usable.
    Healthy,
    /// Provider failed recently and should be skipped temporarily.
    BackingOff,
    /// Provider is not configured or trust failed.
    Unavailable,
}

/// Selected adapter profile and explanation.
#[derive(Debug, PartialEq, Eq)]
pub struct AdapterSelection<'a> {
    /// Selected profile.
    pub profile: &'a SignalingAdapterProfile,
    /// Selection explanation.
    pub reason: &'static str,
}

/// Selection failure.
#[derive(Clone, Copy, Debug, PartialEq, Eq, Structural)]
pub enum AdapterSelectionError {
    /// No adapter profile is healthy.
    NoHealthyAdapter,
}

/// Health of a profile: recorded status, healthy when none is recorded.
pub open spec fn health_of(health: KeyedList<AdapterHealth>, profile_id: Seq<char>) -> AdapterHealth {
    if health.has(profile_id) {
        health.at(profile_id)
    } else {
        AdapterHealth::Healthy
    }
}

impl ConnectivityPolicy {
    pub open spec fn fault(&self) -> Option<Seq<char>> {
        if self.signaling_profiles@.len() == 0 || self.ice_profile.stun_servers@.len() == 0 {
            Some("connectivity policy needs at least one signaling profile and STUN endpoint"@)
        } else {
            first_profile_fault(self.signaling_profiles@)
        }
    }

    /// Build and validate a policy.
    pub fn new(scope: AdapterScope, signaling_profiles: Vec<SignalingAdapterProfile>, ice_profile: IceProfile) -> (r:
        Result<Self, TransportError>)
        ensures
            reports_unavailable(r, (ConnectivityPolicy { scope, signaling_profiles, ice_profile }).fault()),
            r matches Ok(p) ==> p == (ConnectivityPolicy { scope, signaling_profiles, ice_profile }),
    {
        let policy = ConnectivityPolicy { scope, signaling_profiles, ice_profile };
        match policy.validate() {
            Err(e) => Err(e),
            Ok(()) => Ok(policy),
        }
    }

    /// Validate adapter and ICE shape.
    pub fn validate(&self) -> (r: Result<(), TransportError>)
        ensures
            reports_unavailable(r, self.fault()),
    {
        if self.signaling_profiles.len() == 0 || self.ice_profile.stun_servers.len() == 0 {
            return Err(
                TransportError::Unavailable(
                    text("connectivity policy needs at least one signaling profile and STUN endpoint"),
                ),
            );
        }
        let s = &self.signaling_profiles;
        let n = s.len();
        let mut i: usize = 0;
        assert(s@.skip(0) =~= s@);
        while i < n
            invariant
                n == s@.len(),
                i <= n,
                s@ == self.signaling_profiles@,
                !(self.signaling_profiles@.len() == 0 || self.ice_profile.stun_servers@.len() == 0),
                first_profile_fault(s@) == first_profile_fault(s@.skip(i as int)),
            decreases n - i,
        {
            assert(s@.skip(i as int)[0] == s@[i as int]);
            match s[i].validate() {
                Err(e) => return Err(e),
                Ok(()) => {},
            }
            assert(s@.skip(i as int).drop_first() =~= s@.skip(i + 1));
            i = i + 1;
        }
        assert(s@.skip(n as int) =~= Seq::<SignalingAdapterProfile>::empty());
        Ok(())
    }

    /// Select the first currently healthy adapter profile in policy order;
    /// profiles without a recorded status count as healthy.
    pub fn select<'a>(&'a self, health: &KeyedList<AdapterHealth>) -> (r: Result<AdapterSelection<'a>, AdapterSelectionError>)
        requires
            health.wf(),
        ensures
            match r {
                Ok(sel) => exists|i: int|
                    0 <= i < self.signaling_profiles@.len() && *sel.profile == self.signaling_profiles@[i]
                        && health_of(*health, self.signaling_profiles@[i].profile_id@) == AdapterHealth::Healthy
                        && forall|j: int| 0 <= j < i ==> health_of(*health, (#[trigger] self.signaling_profiles@[j]).profile_id@)
                            != AdapterHealth::Healthy,
                Err(e) => e == AdapterSelectionError::NoHealthyAdapter && forall|j: int|
                    0 <= j < self.signaling_profiles@.len() ==> health_of(*health, (#[trigger] self.signaling_profiles@[j]).profile_id@)
                        != AdapterHealth::Healthy,
            },
            r matches Ok(sel) ==> sel.reason@ == "first healthy adapter in scoped policy order"@,
    {
        let n = self.signaling_profiles.len();
        let mut i: usize = 0;
        while i < n
            invariant
                n == self.signaling_profiles@.len(),
                i <= n,
                health.wf(),
                forall|j: int| 0 <= j < i ==> health_of(*health, (#[trigger] self.signaling_profiles@[j]).profile_id@)
                    != AdapterHealth::Healthy,
            decreases n - i,
        {
            let profile = &self.signaling_profiles[i];
            let status = match health.get(profile.profile_id.as_str()) {
                Some(h) => *h,
                None => AdapterHealth::Healthy,
            };
            if status == AdapterHealth::Healthy {
                return Ok(AdapterSelection { profile, reason: "first healthy adapter in scoped policy order" });
            }
            i = i + 1;
        }
        Err(AdapterSelectionError::NoHealthyAdapter)
    }
}

/// Derived rendezvous topic/capability. The raw scope secret is not stored.
#[derive(Debug, PartialEq, Eq)]
pub struct RendezvousCapability {
    /// Adapter family for which this topic is valid.
    pub adapter_kind: SignalingAdapterKind,
    /// Provider-visible derived topic commitment.
    pub topic_commitment: String,
}

/// Bytes hashed into a signaling rendezvous topic.
pub open spec fn topic_input(kind: SignalingAdapterKind, scope: Seq<char>, secret: Seq<u8>) -> Seq<u8> {
    encode_utf8("discrypt-rendezvous-capability-v1"@) + encode_utf8(kind.name()) + encode_utf8(scope) + secret
}

impl RendezvousCapability {
    /// Derive a provider-visible topic commitment from sealed, non-PII inputs.
    pub fn derive(adapter_kind: SignalingAdapterKind, scope: &AdapterScope, secret: &[u8]) -> (r: Self)
        ensures
            r.adapter_kind == adapter_kind,
            r.topic_commitment@ == lower_hex_spec(sha256_of(topic_input(adapter_kind, scope.canonical(), secret@))),
    {
        let mut buf: Vec<u8> = Vec::new();
        push_str_bytes(&mut buf, "discrypt-rendezvous-capability-v1");
        push_str_bytes(&mut buf, adapter_kind.as_str());
        let canon = scope.canonical_scope();
        push_str_bytes(&mut buf, canon.as_str());
        push_bytes(&mut buf, secret);
        assert(buf@ =~= topic_input(adapter_kind, scope.canonical(), secret@));
        let digest = sha256(buf.as_slice());
        RendezvousCapability { adapter_kind, topic_commitment: lower_hex(&digest) }
    }
}

/// Opaque signaling payload. `sealed_payload` must already be encrypted/sealed.
#[derive(Debug, PartialEq, Eq)]
pub struct AdapterMessage {
    /// Message kind: offer, answer, candidate, or adapter-specific health probe.
    pub kind: String,
    /// Sealed payload only.
    pub sealed_payload: Vec<u8>,
}

impl Clone for AdapterMessage {
    fn clone(&self) -> (r: Self)
        ensures
            r.kind == self.kind,
            r.sealed_payload@ == self.sealed_payload@,
    {
        let payload = self.sealed_payload.clone();
        assert(payload@ =~= self.sealed_payload@);
        AdapterMessage { kind: self.kind.clone(), sealed_payload: payload }
    }
}

/// Provider failure categories surfaced by adapters.
#[derive(Clone, Copy, Debug, PartialEq, Eq, Structural)]
pub enum AdapterFailure {
    /// Endpoint was unreachable.
    Unreachable,
    /// Provider rejected due rate limit.
    RateLimited,
    /// Message exceeded provider limits.
    MessageTooLarge,
    /// Endpoint trust/fingerprint failed.
    TrustFailed,
}

/// Per-topic FIFO queues of sealed payloads, as a local adapter keeps them.
#[derive(Debug)]
pub struct TopicQueues {
    queues: KeyedList<Vec<AdapterMessage>>,
}

impl TopicQueues {
    pub closed spec fn wf(&self) -> bool {
        self.queues.wf()
    }

    /// Messages waiting on a topic, oldest first.
    pub closed spec fn pending(&self, topic: Seq<char>) -> Seq<AdapterMessage> {
        if self.queues.has(topic) {
            self.queues.at(topic)@
        } else {
            Seq::empty()
        }
    }

    /// No messages on any topic.
    pub fn new() -> (r: Self)
        ensures
            r.wf(),
            forall|t: Seq<char>| #[trigger] r.pending(t) == Seq::<AdapterMessage>::empty(),
    {
        TopicQueues { queues: KeyedList::new() }
    }

    /// Queue a sealed payload on a topic; empty payloads are refused.
    pub fn publish(&mut self, topic: &str, message: AdapterMessage) -> (r: Result<(), AdapterFailure>)
        requires
            old(self).wf(),
        ensures
            final(self).wf(),
            message.sealed_payload@.len() == 0 ==> r == Err::<(), AdapterFailure>(AdapterFailure::MessageTooLarge)
                && forall|t: Seq<char>| #[trigger] final(self).pending(t) == old(self).pending(t),
            message.sealed_payload@.len() != 0 ==> r is Ok && final(self).pending(topic@) == old(self).pending(topic@).push(message)
                && forall|t: Seq<char>| t != topic@ ==> #[trigger] final(self).pending(t) == old(self).pending(t),
    {
        if message.sealed_payload.len() == 0 {
            return Err(AdapterFailure::MessageTooLarge);
        }
        let pos = self.queues.position(topic);
        let ghost p: int = match pos {
            Some(i) => i as int,
            None => -1,
        };
        let mut queue: Vec<AdapterMessage> = match pos {
            Some(i) => {
                let (_k, q) = self.queues.remove_at(i);
                q
            },
            None => Vec::new(),
        };
        let ghost before_q = queue@;
        queue.push(message);
        let ghost mid = self.queues;
        self.queues.push_new(String::from_str(topic), queue);
        proof {
            crate::keyed::lemma_key_index(old(self).queues.items@, topic@);
            assert forall|t: Seq<char>| t != topic@ implies #[trigger] self.pending(t) == old(self).pending(t) by {
                crate::keyed::lemma_key_index(old(self).queues.items@, t);
                crate::keyed::lemma_key_index(mid.items@, t);
                crate::keyed::lemma_key_index(self.queues.items@, t);
                if old(self).queues.has(t) {
                    let j = crate::keyed::key_index(old(self).queues.items@, t);
                    if p >= 0 && j > p {
                        assert(mid.items@[j - 1] == old(self).queues.items@[j]);
                        assert(self.queues.items@[j - 1] == mid.items@[j - 1]);
                    } else {
                        assert(mid.items@[j] == old(self).queues.items@[j]);
                        assert(self.queues.items@[j] == mid.items@[j]);
                    }
                }
                if self.queues.has(t) {
                    let j = crate::keyed::key_index(self.queues.items@, t);
                    assert(j < mid.items@.len());
                    if p >= 0 && j >= p {
                        assert(mid.items@[j] == old(self).queues.items@[j + 1]);
                    } else {
                        assert(mid.items@[j] == old(self).queues.items@[j]);
                    }
                }
            }
            assert(self.queues.items@[self.queues.items@.len() - 1].0@ == topic@);
        }
        Ok(())
    }

    /// Take every message queued on a topic, oldest first.
    pub fn take(&mut self, topic: &str) -> (r: Vec<AdapterMessage>)
        requires
            old(self).wf(),
        ensures
            final(self).wf(),
            r@ == old(self).pending(topic@),
            final(self).pending(topic@) == Seq::<AdapterMessage>::empty(),
            forall|t: Seq<char>| t != topic@ ==> #[trigger] final(self).pending(t) == old(self).pending(t),
    {
        match self.queues.position(topic) {
            Some(i) => {
                let ghost mid = self.queues;
                let (_k, q) = self.queues.remove_at(i);
                proof {
                    crate::keyed::lemma_key_index(old(self).queues.items@, topic@);
                    assert forall|t: Seq<char>| t != topic@ implies #[trigger] self.pending(t) == old(self).pending(t) by {
                        crate::keyed::lemma_key_index(old(self).queues.items@, t);
                        crate::keyed::lemma_key_index(self.queues.items@, t);
                        if old(self).queues.has(t) {
                            let j = crate::keyed::key_index(old(self).queues.items@, t);
                            if j > i {
                                assert(self.queues.items@[j - 1] == old(self).queues.items@[j]);
                            } else {
                                assert(self.queues.items@[j] == old(self).queues.items@[j]);
                            }
                        }
                        if self.queues.has(t) {
                            let j = crate::keyed::key_index(self.queues.items@, t);
                            if j >= i {
                                assert(self.queues.items@[j] == old(self).queues.items@[j + 1]);
                            } else {
                                assert(self.queues.items@[j] == old(self).queues.items@[j]);
                            }
                        }
                    }
                    assert(!self.queues.has(topic@)) by {
                        if self.queues.has(topic@) {
                            let j = choose|j: int| 0 <= j < self.queues.items@.len() && (#[trigger] self.queues.items@[j]).0@ == topic@;
                            if j >= i {
                                assert(old(self).queues.items@[j + 1].0@ == topic@);
                            } else {
                                assert(old(self).queues.items@[j].0@ == topic@);
                            }
                        }
                    }
                }
                q
            },
            None => Vec::new(),
        }
    }
}

/// Result from the required shared adapter conformance suite.
#[derive(Debug, PartialEq, Eq)]
pub struct AdapterConformanceReport {
    /// Adapter kind tested.
    pub adapter_kind: SignalingAdapterKind,
    /// Topic is derived and does not expose display names.
    pub derived_topic_used: bool,
    /// Opaque payload published/taken byte-for-byte.
    pub sealed_payload_round_tripped: bool,
    /// Empty/unsealed payload was rejected.
    pub invalid_payload_rejected: bool,
    /// Report limitation.
    pub limitation: String,
}

impl AdapterConformanceReport {
    /// True when the deterministic shared adapter contract passed.
    pub fn ready(&self) -> (b: bool)
        ensures
            b == (self.derived_topic_used && self.sealed_payload_round_tripped && self.invalid_payload_rejected
                && contains_str(self.limitation@, "deterministic"@)),
    {
        self.derived_topic_used && self.sealed_payload_round_tripped && self.invalid_payload_rejected
            && str_contains(self.limitation.as_str(), "deterministic")
    }
}

/// Limitation carried by every local conformance report.
pub open spec fn conformance_limitation() -> Seq<char> {
    "deterministic local adapter conformance; production provider tests must run against MQTT/Nostr/IPFS/Rust-QUIC endpoints"@
}

/// Do two message lists hold the same messages in the same order.
pub open spec fn same_messages(a: Seq<AdapterMessage>, b: Seq<AdapterMessage>) -> bool {
    a.len() == b.len() && forall|i: int| 0 <= i < a.len() ==> (#[trigger] a[i]).kind@ == b[i].kind@
        && a[i].sealed_payload@ == b[i].sealed_payload@
}

/// The conformance verdict on one adapter run: the topic must not spell out
/// the scope, the published payload must come back alone and unchanged, and
/// an empty payload must have been refused.
pub fn adapter_conformance_report(
    adapter_kind: SignalingAdapterKind,
    capability: &RendezvousCapability,
    scope: &AdapterScope,
    publish_ok: bool,
    sent: &AdapterMessage,
    received: &Vec<AdapterMessage>,
    invalid_payload_rejected: bool,
) -> (r: AdapterConformanceReport)
    ensures
        r.adapter_kind == adapter_kind,
        r.derived_topic_used == !contains_str(capability.topic_commitment@, scope.canonical()),
        r.sealed_payload_round_tripped == (publish_ok && same_messages(received@, seq![*sent])),
        r.invalid_payload_rejected == invalid_payload_rejected,
        r.limitation@ == conformance_limitation(),
{
    let canonical = scope.canonical_scope();
    let derived_topic_used = !str_contains(capability.topic_commitment.as_str(), canonical.as_str());
    let mut round_trip = publish_ok && received.len() == 1;
    if round_trip {
        let got = &received[0];
        round_trip = crate::text::str_equal(got.kind.as_str(), sent.kind.as_str())
            && crate::order::slice_eq(got.sealed_payload.as_slice(), sent.sealed_payload.as_slice());
    }
    proof {
        if publish_ok && received@.len() == 1 {
            assert(seq![*sent][0] == *sent);
        }
    }
    AdapterConformanceReport {
        adapter_kind,
        derived_topic_used,
        sealed_payload_round_tripped: round_trip,
        invalid_payload_rejected,
        limitation: text(
            "deterministic local adapter conformance; production provider tests must run against MQTT/Nostr/IPFS/Rust-QUIC endpoints",
        ),
    }
}

} // verus!
