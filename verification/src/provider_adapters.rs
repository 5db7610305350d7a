//! Feature-gated boundaries for the required signaling providers, and the
//! deterministic local provider bus used by adapter conformance checks.
//!
//! Real provider clients are not emulated: each boundary fails closed until a
//! production implementation replaces it.
use vstd::prelude::*;
use vstd::utf8::*;
use crate::peer_overlay::SignalingPeerId;
use crate::policy::{AdapterTrustLabel, ConversationScope, SignalingAdapterKind, SignalingAdapterProfile, SignalingEndpointSecurity};
use crate::text::{bytes_contain, join2, str_equal, text};
use crate::transport::TransportError;

verus! {

/// Production readiness for a provider adapter boundary.
#[derive(Clone, Copy, Debug, Eq, PartialEq, Structural)]
pub enum ProviderAdapterReadiness {
    /// The provider adapter Cargo feature is not enabled in this build.
    FeatureDisabled,
    /// The Cargo feature is enabled but no audited provider client is wired yet.
    ImplementationUnavailable,
}

/// Static production boundary metadata for one required signaling adapter.
#[derive(Clone, Copy, Debug, Eq, PartialEq)]
pub struct ProviderAdapterBoundary {
    /// Adapter kind covered by this boundary.
    pub kind: SignalingAdapterKind,
    /// Cargo feature that must gate a future real provider implementation.
    pub cargo_feature: &'static str,
    /// Current readiness state for this build.
    pub readiness: ProviderAdapterReadiness,
}

/// The redacted failure label of a readiness state.
pub open spec fn failure_label(r: ProviderAdapterReadiness) -> Seq<char> {
    match r {
        ProviderAdapterReadiness::FeatureDisabled => "feature_disabled"@,
        ProviderAdapterReadiness::ImplementationUnavailable => "implementation_unavailable"@,
    }
}

/// The message a boundary fails with.
pub open spec fn unavailable_message(b: ProviderAdapterBoundary) -> Seq<char> {
    match b.readiness {
        ProviderAdapterReadiness::FeatureDisabled => b.kind.name() + " adapter is not enabled; compile with Cargo feature "@
            + b.cargo_feature@ + " only after an audited provider client is wired"@,
        ProviderAdapterReadiness::ImplementationUnavailable => b.kind.name() + " adapter feature "@ + b.cargo_feature@
            + " is enabled but no audited production provider client is wired"@,
    }
}

impl ProviderAdapterBoundary {
    /// True when a real provider client is available in this build: never yet.
    pub fn implementation_available(self) -> (b: bool)
        ensures
            !b,
    {
        false
    }

    /// Redacted failure label for health/observability.
    pub fn failure_class(self) -> (r: &'static str)
        ensures
            r@ == failure_label(self.readiness),
    {
        match self.readiness {
            ProviderAdapterReadiness::FeatureDisabled => "feature_disabled",
            ProviderAdapterReadiness::ImplementationUnavailable => "implementation_unavailable",
        }
    }

    /// The error every operation of this boundary fails with.
    pub fn unavailable_error(self) -> (e: TransportError)
        ensures
            e matches TransportError::SignalingAdapter(m) && m@ == unavailable_message(self),
    {
        let mut m = text(self.kind.canonical_name());
        match self.readiness {
            ProviderAdapterReadiness::FeatureDisabled => {
                m.append(" adapter is not enabled; compile with Cargo feature ");
                m.append(self.cargo_feature);
                m.append(" only after an audited provider client is wired");
            },
            ProviderAdapterReadiness::ImplementationUnavailable => {
                m.append(" adapter feature ");
                m.append(self.cargo_feature);
                m.append(" is enabled but no audited production provider client is wired");
            },
        }
        TransportError::SignalingAdapter(m)
    }
}

/// The Cargo feature that gates a provider kind.
pub open spec fn feature_name(kind: SignalingAdapterKind) -> Seq<char> {
    match kind {
        SignalingAdapterKind::Mqtt => "mqtt-adapter"@,
        SignalingAdapterKind::Nostr => "nostr-adapter"@,
        SignalingAdapterKind::IpfsPubsub => "ipfs-pubsub-adapter"@,
        SignalingAdapterKind::DiscryptQuicRendezvous => "discrypt-quic-rendezvous-adapter"@,
    }
}

fn feature_readiness(enabled: bool) -> (r: ProviderAdapterReadiness)
    ensures
        r == (if enabled { ProviderAdapterReadiness::ImplementationUnavailable } else { ProviderAdapterReadiness::FeatureDisabled }),
{
    if enabled {
        ProviderAdapterReadiness::ImplementationUnavailable
    } else {
        ProviderAdapterReadiness::FeatureDisabled
    }
}

/// Return the feature-gated boundary for a required provider adapter kind.
///
/// This library defines none of the provider features, so every boundary
/// reports the feature as disabled.
pub fn adapter_boundary_for_kind(kind: SignalingAdapterKind) -> (b: ProviderAdapterBoundary)
    ensures
        b.kind == kind,
        b.cargo_feature@ == feature_name(kind),
        b.readiness == ProviderAdapterReadiness::FeatureDisabled,
{
    let cargo_feature = match kind {
        SignalingAdapterKind::Mqtt => "mqtt-adapter",
        SignalingAdapterKind::Nostr => "nostr-adapter",
        SignalingAdapterKind::IpfsPubsub => "ipfs-pubsub-adapter",
        SignalingAdapterKind::DiscryptQuicRendezvous => "discrypt-quic-rendezvous-adapter",
    };
    ProviderAdapterBoundary { kind, cargo_feature, readiness: feature_readiness(false) }
}

/// Return all required production provider adapter boundaries, in kind order.
pub fn required_provider_adapter_boundaries() -> (r: [ProviderAdapterBoundary; 4])
    ensures
        r@[0].kind == SignalingAdapterKind::Mqtt,
        r@[1].kind == SignalingAdapterKind::Nostr,
        r@[2].kind == SignalingAdapterKind::IpfsPubsub,
        r@[3].kind == SignalingAdapterKind::DiscryptQuicRendezvous,
        forall|i: int| 0 <= i < 4 ==> (#[trigger] r@[i]).cargo_feature@ == feature_name(r@[i].kind)
            && r@[i].readiness == ProviderAdapterReadiness::FeatureDisabled,
{
    [
        adapter_boundary_for_kind(SignalingAdapterKind::Mqtt),
        adapter_boundary_for_kind(SignalingAdapterKind::Nostr),
        adapter_boundary_for_kind(SignalingAdapterKind::IpfsPubsub),
        adapter_boundary_for_kind(SignalingAdapterKind::DiscryptQuicRendezvous),
    ]
}

/// Fail-closed adapter used until a real provider client is wired.
#[derive(Clone, Debug, Eq, PartialEq)]
pub struct FeatureGatedProviderAdapter {
    boundary: ProviderAdapterBoundary,
}

impl FeatureGatedProviderAdapter {
    /// The boundary this adapter stands for.
    pub closed spec fn boundary_view(&self) -> ProviderAdapterBoundary {
        self.boundary
    }

    /// Construct a boundary adapter for a required provider kind.
    pub fn new(kind: SignalingAdapterKind) -> (r: Self)
        ensures
            r.boundary_view().kind == kind,
            r.boundary_view().cargo_feature@ == feature_name(kind),
            r.boundary_view().readiness == ProviderAdapterReadiness::FeatureDisabled,
    {
        FeatureGatedProviderAdapter { boundary: adapter_boundary_for_kind(kind) }
    }

    /// Return this adapter's static boundary metadata.
    pub fn boundary(&self) -> (b: ProviderAdapterBoundary)
        ensures
            b == self.boundary_view(),
    {
        self.boundary
    }

    /// Why connecting with `profile` fails: an invalid profile, a profile of
    /// another kind, or the missing provider client.
    pub fn connect_refusal(&self, profile: &SignalingAdapterProfile) -> (e: TransportError)
        ensures
            profile.fault() is Some ==> crate::policy::reports(Err::<(), TransportError>(e), profile.fault()),
            profile.fault() is None && profile.kind != self.boundary_view().kind ==> (e matches TransportError::InvalidConnectivityPolicy(m)
                && m@ == "adapter profile kind "@ + profile.kind.name() + " does not match boundary kind "@
                + self.boundary_view().kind.name()),
            profile.fault() is None && profile.kind == self.boundary_view().kind ==> (e matches TransportError::SignalingAdapter(m)
                && m@ == unavailable_message(self.boundary_view())),
    {
        match profile.validate() {
            Err(e) => {
                return e;
            },
            Ok(()) => {},
        }
        if profile.kind != self.boundary.kind {
            let mut m = text("adapter profile kind ");
            m.append(profile.kind.canonical_name());
            m.append(" does not match boundary kind ");
            m.append(self.boundary.kind.canonical_name());
            return TransportError::InvalidConnectivityPolicy(m);
        }
        self.boundary.unavailable_error()
    }
}

/// Session of a fail-closed provider boundary; never reached while `connect` fails.
#[derive(Clone, Debug, Eq, PartialEq)]
pub struct FeatureGatedProviderSession {
    boundary: ProviderAdapterBoundary,
}

/// Room of a fail-closed provider boundary.
#[derive(Clone, Debug, Eq, PartialEq)]
pub struct FeatureGatedProviderRoom {
    boundary: ProviderAdapterBoundary,
}

impl FeatureGatedProviderSession {
    /// The boundary this value stands for.
    pub closed spec fn boundary_view(&self) -> ProviderAdapterBoundary {
        self.boundary
    }

    /// A session bound to `boundary`.
    pub fn new(boundary: ProviderAdapterBoundary) -> (r: Self)
        ensures
            r.boundary_view() == boundary,
    {
        FeatureGatedProviderSession { boundary }
    }

    /// Every room operation fails with the boundary's error.
    pub fn refusal(&self) -> (e: TransportError)
        ensures
            e matches TransportError::SignalingAdapter(m) && m@ == unavailable_message(self.boundary_view()),
    {
        self.boundary.unavailable_error()
    }
}

/// Health state a signaling adapter reports.
#[derive(Clone, Copy, Debug, Eq, PartialEq, Structural)]
pub enum SignalingHealthState {
    /// The provider answers.
    Healthy,
    /// The provider cannot be used.
    ProviderUnhealthy,
}

/// Redacted health report of one adapter session.
#[derive(Clone, Debug, Eq, PartialEq)]
pub struct SignalingHealth {
    /// Adapter kind.
    pub adapter_kind: SignalingAdapterKind,
    /// Health state.
    pub state: SignalingHealthState,
    /// Coarse latency bucket.
    pub latency_bucket: String,
    /// Redacted failure class, when unhealthy.
    pub failure_class: Option<String>,
}

/// Redacted observability record of one adapter: no endpoint secrets.
#[derive(Debug, Eq, PartialEq)]
pub struct SignalingObservability {
    /// Adapter kind.
    pub adapter_kind: SignalingAdapterKind,
    /// Redacted endpoint label.
    pub endpoint_label: String,
    /// Health state.
    pub health: SignalingHealthState,
    /// Trust label shown to users.
    pub trust_label: AdapterTrustLabel,
}

/// Observability record of the deterministic local conformance adapter of
/// `kind`.
pub fn local_conformance_observability(kind: SignalingAdapterKind) -> (r: SignalingObservability)
    ensures
        r.adapter_kind == kind,
        r.endpoint_label@ == "local-conformance:"@ + kind.name() + "#redacted"@,
        r.health == SignalingHealthState::Healthy,
        r.trust_label.label@ == kind.name(),
        r.trust_label.posture@ == "deterministic local conformance only"@,
{
    let mut endpoint_label = join2("local-conformance:", kind.canonical_name());
    endpoint_label.append("#redacted");
    SignalingObservability {
        adapter_kind: kind,
        endpoint_label,
        health: SignalingHealthState::Healthy,
        trust_label: AdapterTrustLabel {
            label: text(kind.canonical_name()),
            posture: text("deterministic local conformance only"),
        },
    }
}

/// Health of a deterministic local conformance session of `kind`.
pub fn local_conformance_health(kind: SignalingAdapterKind) -> (r: SignalingHealth)
    ensures
        r.adapter_kind == kind,
        r.state == SignalingHealthState::Healthy,
        r.latency_bucket@ == "local"@,
        r.failure_class is None,
{
    SignalingHealth {
        adapter_kind: kind,
        state: SignalingHealthState::Healthy,
        latency_bucket: text("local"),
        failure_class: None,
    }
}

impl FeatureGatedProviderAdapter {
    /// Observability record of a provider this build does not include: never
    /// connected, unhealthy, and labelled with its feature and failure class.
    pub fn observability_redacted(&self) -> (r: SignalingObservability)
        ensures
            r.adapter_kind == self.boundary_view().kind,
            r.endpoint_label@ == self.boundary_view().kind.name() + "#not_connected"@,
            r.health == SignalingHealthState::ProviderUnhealthy,
            r.trust_label.label@ == self.boundary_view().kind.name(),
            r.trust_label.posture@ == self.boundary_view().cargo_feature@ + "; "@ + failure_label(
                self.boundary_view().readiness,
            ),
    {
        let kind = self.boundary.kind;
        let endpoint_label = join2(kind.canonical_name(), "#not_connected");
        let mut posture = join2(self.boundary.cargo_feature, "; ");
        posture.append(self.boundary.failure_class());
        SignalingObservability {
            adapter_kind: kind,
            endpoint_label,
            health: SignalingHealthState::ProviderUnhealthy,
            trust_label: AdapterTrustLabel { label: text(kind.canonical_name()), posture },
        }
    }
}

impl FeatureGatedProviderSession {
    /// Health of a provider session this build does not include.
    pub fn health(&self) -> (r: SignalingHealth)
        ensures
            r.adapter_kind == self.boundary_view().kind,
            r.state == SignalingHealthState::ProviderUnhealthy,
            r.latency_bucket@ == "not_connected"@,
            r.failure_class matches Some(c) && c@ == failure_label(self.boundary_view().readiness),
    {
        SignalingHealth {
            adapter_kind: self.boundary.kind,
            state: SignalingHealthState::ProviderUnhealthy,
            latency_bucket: text("not_connected"),
            failure_class: Some(text(self.boundary.failure_class())),
        }
    }
}

impl FeatureGatedProviderRoom {
    /// The boundary this value stands for.
    pub closed spec fn boundary_view(&self) -> ProviderAdapterBoundary {
        self.boundary
    }

    /// A room bound to `boundary`.
    pub fn new(boundary: ProviderAdapterBoundary) -> (r: Self)
        ensures
            r.boundary_view() == boundary,
    {
        FeatureGatedProviderRoom { boundary }
    }

    /// Every room operation fails with the boundary's error.
    pub fn refusal(&self) -> (e: TransportError)
        ensures
            e matches TransportError::SignalingAdapter(m) && m@ == unavailable_message(self.boundary_view()),
    {
        self.boundary.unavailable_error()
    }
}

/// Every endpoint of the profile is a local-dev loopback endpoint.
pub open spec fn all_loopback(profile: SignalingAdapterProfile) -> bool {
    forall|i: int| 0 <= i < profile.endpoints@.len() ==> (#[trigger] profile.endpoints@[i]).security
        == SignalingEndpointSecurity::LocalDevLoopback
}

/// Check a profile before a local conformance adapter of `kind` connects:
/// the profile must validate, be of the same kind, and use only loopback endpoints.
pub fn local_connect_check(kind: SignalingAdapterKind, profile: &SignalingAdapterProfile) -> (r: Result<(), TransportError>)
    ensures
        profile.fault() is Some ==> crate::policy::reports(r, profile.fault()),
        profile.fault() is None && profile.kind != kind ==> (r matches Err(TransportError::InvalidConnectivityPolicy(m))
            && m@ == "adapter profile kind "@ + profile.kind.name() + " does not match local conformance kind "@
            + kind.name()),
        profile.fault() is None && profile.kind == kind && !all_loopback(*profile) ==> (r matches Err(
            TransportError::InvalidConnectivityPolicy(m),
        ) && m@ == "local conformance adapters require local-dev loopback endpoints"@),
        profile.fault() is None && profile.kind == kind && all_loopback(*profile) ==> r is Ok,
{
    match profile.validate() {
        Err(e) => {
            return Err(e);
        },
        Ok(()) => {},
    }
    if profile.kind != kind {
        let mut m = text("adapter profile kind ");
        m.append(profile.kind.canonical_name());
        m.append(" does not match local conformance kind ");
        m.append(kind.canonical_name());
        return Err(TransportError::InvalidConnectivityPolicy(m));
    }
    let n = profile.endpoints.len();
    let mut i: usize = 0;
    while i < n
        invariant
            n == profile.endpoints@.len(),
            i <= n,
            profile.fault() is None,
            profile.kind == kind,
            forall|j: int| 0 <= j < i ==> (#[trigger] profile.endpoints@[j]).security == SignalingEndpointSecurity::LocalDevLoopback,
        decreases n - i,
    {
        if profile.endpoints[i].security != SignalingEndpointSecurity::LocalDevLoopback {
            return Err(TransportError::InvalidConnectivityPolicy(
                text("local conformance adapters require local-dev loopback endpoints"),
            ));
        }
        i = i + 1;
    }
    Ok(())
}

/// Do two scopes name the same conversation: same level, commitment and parent.
pub open spec fn same_scope(a: ConversationScope, b: ConversationScope) -> bool {
    a.level == b.level && a.scope_id_commitment@ == b.scope_id_commitment@ && a.parent_view() == b.parent_view()
}

fn scopes_match(a: &ConversationScope, b: &ConversationScope) -> (r: bool)
    ensures
        r == same_scope(*a, *b),
{
    let parents = match (&a.parent_scope_commitment, &b.parent_scope_commitment) {
        (None, None) => true,
        (Some(x), Some(y)) => str_equal(x.as_str(), y.as_str()),
        _ => false,
    };
    a.level == b.level && str_equal(a.scope_id_commitment.as_str(), b.scope_id_commitment.as_str()) && parents
}

/// Check a request to join a local conformance room: the scope must be valid,
/// the rendezvous capability must be for that scope and for this adapter kind.
pub fn local_join_check(
    kind: SignalingAdapterKind,
    scope: &ConversationScope,
    rendezvous_scope: &ConversationScope,
    rendezvous_kind: SignalingAdapterKind,
) -> (r: Result<(), TransportError>)
    ensures
        scope.fault() is Some ==> crate::policy::reports(r, scope.fault()),
        scope.fault() is None && !same_scope(*rendezvous_scope, *scope) ==> (r matches Err(
            TransportError::SignalingAdapter(m),
        ) && m@ == "rendezvous capability scope mismatch"@),
        scope.fault() is None && same_scope(*rendezvous_scope, *scope) && rendezvous_kind != kind ==> (r matches Err(
            TransportError::InvalidConnectivityPolicy(m),
        ) && m@ == "rendezvous capability kind "@ + rendezvous_kind.name() + " does not match local conformance kind "@
            + kind.name()),
        scope.fault() is None && same_scope(*rendezvous_scope, *scope) && rendezvous_kind == kind ==> r is Ok,
{
    match scope.validate() {
        Err(e) => {
            return Err(e);
        },
        Ok(()) => {},
    }
    if !scopes_match(rendezvous_scope, scope) {
        return Err(TransportError::SignalingAdapter(text("rendezvous capability scope mismatch")));
    }
    if rendezvous_kind != kind {
        let mut m = text("rendezvous capability kind ");
        m.append(rendezvous_kind.canonical_name());
        m.append(" does not match local conformance kind ");
        m.append(kind.canonical_name());
        return Err(TransportError::InvalidConnectivityPolicy(m));
    }
    Ok(())
}

// ---------------------------------------------------------------------------
// Provider-visible payloads.
// ---------------------------------------------------------------------------

/// Opaque sealed bytes handed to a signaling provider.
#[derive(Debug, Eq, PartialEq)]
pub struct OpaqueSignalingPayload {
    /// Sealed bytes.
    pub bytes: Vec<u8>,
}

/// Sealed WebRTC negotiation payload handed to a signaling provider.
#[derive(Debug, Eq, PartialEq)]
pub struct SealedWebRtcNegotiationPayload {
    /// Sealed negotiation bytes.
    pub ciphertext: Vec<u8>,
}

/// Presence published into a room.
#[derive(Debug, Eq, PartialEq)]
pub struct PresenceEvent {
    /// Publishing peer.
    pub peer_id: SignalingPeerId,
    /// Sealed presence bytes.
    pub encrypted_presence: OpaqueSignalingPayload,
    /// Presence lifetime in seconds.
    pub ttl_seconds: u32,
}

/// Negotiation signal addressed to one peer.
#[derive(Debug, Eq, PartialEq)]
pub struct PeerSignal {
    /// Sending peer.
    pub from_peer: SignalingPeerId,
    /// Addressed peer.
    pub to_peer: SignalingPeerId,
    /// Sealed negotiation bytes.
    pub payload: SealedWebRtcNegotiationPayload,
}

/// Sealed control frame broadcast to a room.
#[derive(Debug, Eq, PartialEq)]
pub struct ControlBroadcast {
    /// Sending peer.
    pub from_peer: SignalingPeerId,
    /// Sealed control bytes.
    pub payload: OpaqueSignalingPayload,
}

impl Clone for OpaqueSignalingPayload {
    fn clone(&self) -> (r: Self)
        ensures
            r.bytes@ == self.bytes@,
    {
        OpaqueSignalingPayload { bytes: self.bytes.clone() }
    }
}

impl Clone for SealedWebRtcNegotiationPayload {
    fn clone(&self) -> (r: Self)
        ensures
            r.ciphertext@ == self.ciphertext@,
    {
        SealedWebRtcNegotiationPayload { ciphertext: self.ciphertext.clone() }
    }
}

impl Clone for PresenceEvent {
    fn clone(&self) -> (r: Self)
        ensures
            pview(r) == pview(*self),
    {
        PresenceEvent { peer_id: self.peer_id.clone(), encrypted_presence: self.encrypted_presence.clone(), ttl_seconds: self.ttl_seconds }
    }
}

impl Clone for PeerSignal {
    fn clone(&self) -> (r: Self)
        ensures
            sview(r) == sview(*self),
    {
        PeerSignal { from_peer: self.from_peer.clone(), to_peer: self.to_peer.clone(), payload: self.payload.clone() }
    }
}

impl Clone for ControlBroadcast {
    fn clone(&self) -> (r: Self)
        ensures
            ctview(r) == ctview(*self),
    {
        ControlBroadcast { from_peer: self.from_peer.clone(), payload: self.payload.clone() }
    }
}

/// Calls `std::str::from_utf8` and reports whether it succeeds. Trusted: per
/// its documentation it succeeds exactly on valid UTF-8.
#[verifier::external_body]
fn is_utf8(bytes: &[u8]) -> (b: bool)
    ensures
        b == valid_utf8(bytes@),
{
    std::str::from_utf8(bytes).is_ok()
}

/// ASCII lower-casing of one byte.
pub open spec fn lower_byte(b: u8) -> u8 {
    if 65 <= b <= 90 { (b + 32) as u8 } else { b }
}

/// ASCII lower-casing of bytes; other bytes are kept.
pub open spec fn lower_bytes(s: Seq<u8>) -> Seq<u8> {
    s.map_values(|b: u8| lower_byte(b))
}

/// Plaintext markers that must never reach provider-visible state.
pub open spec fn forbidden_markers() -> Seq<Seq<char>> {
    seq![
        "alice display"@,
        "bob display"@,
        "family voice"@,
        "raw sdp"@,
        "raw ice"@,
        "v=0"@,
        "a=ice-ufrag"@,
        "a=ice-pwd"@,
        "candidate:"@,
    ]
}

/// Valid UTF-8 text whose ASCII-lower-cased form contains a forbidden marker.
pub open spec fn leaks_plaintext(bytes: Seq<u8>) -> bool {
    valid_utf8(bytes) && exists|i: int| 0 <= i < forbidden_markers().len() && bytes_contain(
        lower_bytes(bytes),
        encode_utf8(#[trigger] forbidden_markers()[i]),
    )
}

fn lowered(bytes: &[u8]) -> (r: Vec<u8>)
    ensures
        r@ == lower_bytes(bytes@),
{
    let mut out: Vec<u8> = Vec::new();
    let n = bytes.len();
    let mut i: usize = 0;
    while i < n
        invariant
            n == bytes@.len(),
            i <= n,
            out@.len() == i,
            forall|k: int| 0 <= k < i ==> #[trigger] out@[k] == lower_byte(bytes@[k]),
        decreases n - i,
    {
        let b = bytes[i];
        let l = if 65 <= b && b <= 90 { b + 32 } else { b };
        out.push(l);
        i = i + 1;
    }
    assert(out@ =~= lower_bytes(bytes@));
    out
}

/// Reject bytes that carry a recognizable plaintext marker.
pub fn reject_forbidden_plaintext(bytes: &[u8]) -> (r: Result<(), TransportError>)
    ensures
        r is Ok <==> !leaks_plaintext(bytes@),
        r is Err ==> r matches Err(TransportError::PlaintextLeak),
{
    if !is_utf8(bytes) {
        return Ok(());
    }
    let lower = lowered(bytes);
    let markers = vec![
        "alice display",
        "bob display",
        "family voice",
        "raw sdp",
        "raw ice",
        "v=0",
        "a=ice-ufrag",
        "a=ice-pwd",
        "candidate:",
    ];
    assert(markers@.map_values(|m: &str| m@) =~= forbidden_markers());
    let n = markers.len();
    let mut i: usize = 0;
    while i < n
        invariant
            n == markers@.len(),
            markers@.map_values(|m: &str| m@) == forbidden_markers(),
            lower@ == lower_bytes(bytes@),
            valid_utf8(bytes@),
            i <= n,
            forall|k: int| 0 <= k < i ==> !bytes_contain(lower_bytes(bytes@), encode_utf8(#[trigger] forbidden_markers()[k])),
        decreases n - i,
    {
        assert(markers@[i as int]@ == forbidden_markers()[i as int]);
        if crate::text::bytes_contains(lower.as_slice(), markers[i].as_bytes()) {
            return Err(TransportError::PlaintextLeak);
        }
        i = i + 1;
    }
    Ok(())
}

// ---------------------------------------------------------------------------
// Deterministic local provider bus.
// ---------------------------------------------------------------------------

/// Messages held by one room of the local bus.
#[derive(Clone, Debug, Default, Eq, PartialEq)]
pub struct LocalRoomState {
    /// Published presence, oldest first.
    pub presence: Vec<PresenceEvent>,
    /// Pending signals, oldest first.
    pub signals: Vec<PeerSignal>,
    /// Pending control broadcasts, oldest first.
    pub controls: Vec<ControlBroadcast>,
}

impl LocalRoomState {
    /// A room with no messages.
    pub fn empty() -> (r: Self)
        ensures
            r.presence@.len() == 0,
            r.signals@.len() == 0,
            r.controls@.len() == 0,
    {
        LocalRoomState { presence: Vec::new(), signals: Vec::new(), controls: Vec::new() }
    }
}

/// Rank of a provider kind in declaration order.
pub open spec fn kind_rank(k: SignalingAdapterKind) -> int {
    match k {
        SignalingAdapterKind::Mqtt => 0,
        SignalingAdapterKind::Nostr => 1,
        SignalingAdapterKind::IpfsPubsub => 2,
        SignalingAdapterKind::DiscryptQuicRendezvous => 3,
    }
}

fn kind_index(k: SignalingAdapterKind) -> (r: u8)
    ensures
        r as int == kind_rank(k),
{
    match k {
        SignalingAdapterKind::Mqtt => 0,
        SignalingAdapterKind::Nostr => 1,
        SignalingAdapterKind::IpfsPubsub => 2,
        SignalingAdapterKind::DiscryptQuicRendezvous => 3,
    }
}

/// Room order: provider kind, then topic.
pub open spec fn room_lt(a: (SignalingAdapterKind, Seq<char>), b: (SignalingAdapterKind, Seq<char>)) -> bool {
    kind_rank(a.0) < kind_rank(b.0) || (kind_rank(a.0) == kind_rank(b.0) && crate::order::seq_lt(a.1, b.1))
}

/// Relay-visible bytes of a presence event: publisher id, then sealed presence.
pub open spec fn presence_bytes(e: PresenceEvent) -> Seq<u8> {
    encode_utf8(e.peer_id.0@) + e.encrypted_presence.bytes@
}

/// Relay-visible bytes of a signal: sender id, addressee id, sealed payload.
pub open spec fn signal_bytes(s: PeerSignal) -> Seq<u8> {
    encode_utf8(s.from_peer.0@) + encode_utf8(s.to_peer.0@) + s.payload.ciphertext@
}

/// Relay-visible bytes of a control broadcast: sender id, sealed payload.
pub open spec fn control_bytes(c: ControlBroadcast) -> Seq<u8> {
    encode_utf8(c.from_peer.0@) + c.payload.bytes@
}

pub open spec fn presence_material(s: Seq<PresenceEvent>) -> Seq<Seq<u8>>
    decreases s.len(),
{
    if s.len() == 0 {
        Seq::empty()
    } else {
        presence_material(s.drop_last()).push(presence_bytes(s.last()))
    }
}

pub open spec fn signal_material(s: Seq<PeerSignal>) -> Seq<Seq<u8>>
    decreases s.len(),
{
    if s.len() == 0 {
        Seq::empty()
    } else {
        signal_material(s.drop_last()).push(signal_bytes(s.last()))
    }
}

pub open spec fn control_material(s: Seq<ControlBroadcast>) -> Seq<Seq<u8>>
    decreases s.len(),
{
    if s.len() == 0 {
        Seq::empty()
    } else {
        control_material(s.drop_last()).push(control_bytes(s.last()))
    }
}

/// Relay-visible material of one room, in the order the bus reports it: the
/// kind name, the topic, then each presence, signal and control entry.
pub open spec fn room_material(kind: SignalingAdapterKind, topic: Seq<char>, room: LocalRoomState) -> Seq<Seq<u8>> {
    seq![encode_utf8(kind.name()), encode_utf8(topic)] + presence_material(room.presence@) + signal_material(
        room.signals@,
    ) + control_material(room.controls@)
}

/// Relay-visible material of a sequence of rooms, in room order.
pub open spec fn rooms_material(rooms: Seq<(SignalingAdapterKind, String, LocalRoomState)>) -> Seq<Seq<u8>>
    decreases rooms.len(),
{
    if rooms.len() == 0 {
        Seq::empty()
    } else {
        rooms_material(rooms.drop_last()) + room_material(rooms.last().0, rooms.last().1@, rooms.last().2)
    }
}

/// Index of the first room keyed by `kind` and `topic`, or the length when none is.
pub open spec fn room_index(rooms: Seq<(SignalingAdapterKind, String, LocalRoomState)>, kind: SignalingAdapterKind, topic: Seq<char>) -> int
    decreases rooms.len(),
{
    if rooms.len() == 0 {
        0
    } else if rooms[0].0 == kind && rooms[0].1@ == topic {
        0
    } else {
        1 + room_index(rooms.drop_first(), kind, topic)
    }
}

proof fn lemma_room_index_bounds(rooms: Seq<(SignalingAdapterKind, String, LocalRoomState)>, kind: SignalingAdapterKind, topic: Seq<char>)
    ensures
        0 <= room_index(rooms, kind, topic) <= rooms.len(),
        room_index(rooms, kind, topic) < rooms.len() ==> rooms[room_index(rooms, kind, topic)].0 == kind
            && rooms[room_index(rooms, kind, topic)].1@ == topic,
        forall|j: int| 0 <= j < room_index(rooms, kind, topic) ==> !((#[trigger] rooms[j]).0 == kind && rooms[j].1@ == topic),
    decreases rooms.len(),
{
    if rooms.len() > 0 && !(rooms[0].0 == kind && rooms[0].1@ == topic) {
        lemma_room_index_bounds(rooms.drop_first(), kind, topic);
        assert forall|j: int| 0 <= j < room_index(rooms, kind, topic) implies !((#[trigger] rooms[j]).0 == kind && rooms[j].1@ == topic) by {
            if j > 0 {
                assert(rooms[j] == rooms.drop_first()[j - 1]);
            }
        }
    }
}

proof fn lemma_room_index_absent(rooms: Seq<(SignalingAdapterKind, String, LocalRoomState)>, kind: SignalingAdapterKind, topic: Seq<char>)
    requires
        room_index(rooms, kind, topic) == rooms.len(),
    ensures
        forall|j: int| 0 <= j < rooms.len() ==> !((#[trigger] rooms[j]).0 == kind && rooms[j].1@ == topic),
{
    lemma_room_index_bounds(rooms, kind, topic);
}

proof fn lemma_room_index_at(rooms: Seq<(SignalingAdapterKind, String, LocalRoomState)>, kind: SignalingAdapterKind, topic: Seq<char>, i: int)
    requires
        0 <= i < rooms.len(),
        rooms[i].0 == kind && rooms[i].1@ == topic,
        forall|j: int| 0 <= j < rooms.len() && j != i ==> !((#[trigger] rooms[j]).0 == kind && rooms[j].1@ == topic),
    ensures
        room_index(rooms, kind, topic) == i,
{
    lemma_room_index_bounds(rooms, kind, topic);
    if room_index(rooms, kind, topic) < i {
        assert(false);
    }
}

proof fn lemma_room_lt_trichotomy(a: (SignalingAdapterKind, Seq<char>), b: (SignalingAdapterKind, Seq<char>))
    ensures
        a == b || room_lt(a, b) || room_lt(b, a),
        !(room_lt(a, b) && room_lt(b, a)),
        !room_lt(a, a),
{
    crate::order::lemma_lt_trichotomy(a.1, b.1);
    crate::order::lemma_lt_trichotomy(a.1, a.1);
    if kind_rank(a.0) == kind_rank(b.0) {
        assert(a.0 == b.0);
    }
}

proof fn lemma_room_lt_transitive(a: (SignalingAdapterKind, Seq<char>), b: (SignalingAdapterKind, Seq<char>), c: (SignalingAdapterKind, Seq<char>))
    requires
        room_lt(a, b),
        room_lt(b, c),
    ensures
        room_lt(a, c),
{
    if kind_rank(a.0) == kind_rank(b.0) && kind_rank(b.0) == kind_rank(c.0) {
        crate::order::lemma_lt_transitive(a.1, b.1, c.1);
    }
}

/// In a key-sorted room list the entry at `i` is the room for its key.
proof fn lemma_room_index_sorted(rooms: Seq<(SignalingAdapterKind, String, LocalRoomState)>, i: int)
    requires
        0 <= i < rooms.len(),
        forall|a: int, b: int| 0 <= a < b < rooms.len() ==> room_lt(((#[trigger] rooms[a]).0, rooms[a].1@), ((#[trigger] rooms[b]).0, rooms[b].1@)),
    ensures
        room_index(rooms, rooms[i].0, rooms[i].1@) == i,
{
    assert forall|j: int| 0 <= j < rooms.len() && j != i implies !((#[trigger] rooms[j]).0 == rooms[i].0 && rooms[j].1@ == rooms[i].1@) by {
        if j < i {
            lemma_room_lt_trichotomy((rooms[j].0, rooms[j].1@), (rooms[i].0, rooms[i].1@));
        } else {
            lemma_room_lt_trichotomy((rooms[i].0, rooms[i].1@), (rooms[j].0, rooms[j].1@));
        }
    }
    lemma_room_index_at(rooms, rooms[i].0, rooms[i].1@, i);
}

proof fn lemma_room_index_insert(
    s: Seq<(SignalingAdapterKind, String, LocalRoomState)>,
    i: int,
    t: Seq<(SignalingAdapterKind, String, LocalRoomState)>,
    k: SignalingAdapterKind,
    tp: Seq<char>,
)
    requires
        0 <= i <= s.len(),
        t.len() == s.len() + 1,
        forall|j: int| 0 <= j < i ==> #[trigger] t[j] == s[j],
        forall|j: int| i < j < t.len() ==> #[trigger] t[j] == s[j - 1],
        !(t[i].0 == k && t[i].1@ == tp),
    ensures
        (if room_index(t, k, tp) < t.len() { Some(t[room_index(t, k, tp)].2) } else { None::<LocalRoomState> })
            == (if room_index(s, k, tp) < s.len() { Some(s[room_index(s, k, tp)].2) } else { None::<LocalRoomState> }),
{
    lemma_room_index_bounds(s, k, tp);
    lemma_room_index_bounds(t, k, tp);
    let p = room_index(s, k, tp);
    let q = room_index(t, k, tp);
    if p < s.len() {
        let pp = if p < i { p } else { p + 1 };
        assert(t[pp] == s[p]);
        assert forall|j: int| 0 <= j < pp implies !((#[trigger] t[j]).0 == k && t[j].1@ == tp) by {
            if j < i {
                assert(t[j] == s[j]);
            } else if j > i {
                assert(t[j] == s[j - 1]);
            }
        }
        if q < pp {
            assert(false);
        }
        if q > pp {
            assert(false);
        }
    } else {
        if q < t.len() {
            if q < i {
                assert(t[q] == s[q]);
            } else if q > i {
                assert(t[q] == s[q - 1]);
            }
        }
    }
}

/// A presence event by value: publisher, sealed bytes, lifetime.
pub type PresenceView = (Seq<char>, Seq<u8>, u32);

/// A signal by value: sender, addressee, sealed bytes.
pub type SignalView = (Seq<char>, Seq<char>, Seq<u8>);

/// A control broadcast by value: sender, sealed bytes.
pub type ControlView = (Seq<char>, Seq<u8>);

pub open spec fn pview(e: PresenceEvent) -> PresenceView {
    (e.peer_id.0@, e.encrypted_presence.bytes@, e.ttl_seconds)
}

pub open spec fn sview(s: PeerSignal) -> SignalView {
    (s.from_peer.0@, s.to_peer.0@, s.payload.ciphertext@)
}

pub open spec fn ctview(c: ControlBroadcast) -> ControlView {
    (c.from_peer.0@, c.payload.bytes@)
}

pub open spec fn pviews(s: Seq<PresenceEvent>) -> Seq<PresenceView> {
    s.map_values(|e: PresenceEvent| pview(e))
}

pub open spec fn sviews(s: Seq<PeerSignal>) -> Seq<SignalView> {
    s.map_values(|x: PeerSignal| sview(x))
}

pub open spec fn ctviews(s: Seq<ControlBroadcast>) -> Seq<ControlView> {
    s.map_values(|c: ControlBroadcast| ctview(c))
}

/// Signals addressed to `peer`.
pub open spec fn to_peer(peer: Seq<char>) -> spec_fn(SignalView) -> bool {
    |x: SignalView| x.1 == peer
}

/// Signals not addressed to `peer`.
pub open spec fn not_to_peer(peer: Seq<char>) -> spec_fn(SignalView) -> bool {
    |x: SignalView| x.1 != peer
}

/// Control broadcasts sent by someone other than `peer`.
pub open spec fn from_other(peer: Seq<char>) -> spec_fn(ControlView) -> bool {
    |x: ControlView| x.0 != peer
}

/// Control broadcasts sent by `peer`.
pub open spec fn from_self(peer: Seq<char>) -> spec_fn(ControlView) -> bool {
    |x: ControlView| x.0 == peer
}

/// Presence published by someone other than `peer`.
pub open spec fn presence_other(peer: Seq<char>) -> spec_fn(PresenceView) -> bool {
    |x: PresenceView| x.0 != peer
}

/// Signals neither from nor to `peer`.
pub open spec fn signal_other(peer: Seq<char>) -> spec_fn(SignalView) -> bool {
    |x: SignalView| x.0 != peer && x.1 != peer
}

proof fn lemma_room_index_same_keys(
    s: Seq<(SignalingAdapterKind, String, LocalRoomState)>,
    u: Seq<(SignalingAdapterKind, String, LocalRoomState)>,
    k: SignalingAdapterKind,
    t: Seq<char>,
)
    requires
        s.len() == u.len(),
        forall|j: int| 0 <= j < s.len() ==> (#[trigger] s[j]).0 == u[j].0 && s[j].1@ == u[j].1@,
    ensures
        room_index(s, k, t) == room_index(u, k, t),
    decreases s.len(),
{
    if s.len() > 0 {
        assert(s[0].0 == u[0].0 && s[0].1@ == u[0].1@);
        assert forall|j: int| 0 <= j < s.drop_first().len() implies (#[trigger] s.drop_first()[j]).0 == u.drop_first()[j].0
            && s.drop_first()[j].1@ == u.drop_first()[j].1@ by {
            assert(s.drop_first()[j] == s[j + 1]);
            assert(u.drop_first()[j] == u[j + 1]);
        }
        lemma_room_index_same_keys(s.drop_first(), u.drop_first(), k, t);
    }
}

/// State of the deterministic in-memory provider bus: rooms keyed by provider
/// kind and topic, in key order.
#[derive(Debug, Default)]
pub struct LocalConformanceBusState {
    rooms: Vec<(SignalingAdapterKind, String, LocalRoomState)>,
}

impl LocalConformanceBusState {
    pub closed spec fn wf(&self) -> bool {
        forall|i: int, j: int| 0 <= i < j < self.rooms@.len() ==> room_lt(
            ((#[trigger] self.rooms@[i]).0, self.rooms@[i].1@),
            ((#[trigger] self.rooms@[j]).0, self.rooms@[j].1@),
        )
    }

    /// Rooms in key order.
    pub closed spec fn room_seq(&self) -> Seq<(SignalingAdapterKind, String, LocalRoomState)> {
        self.rooms@
    }

    /// An empty bus.
    pub fn new() -> (r: Self)
        ensures
            r.wf(),
            r.room_seq().len() == 0,
    {
        LocalConformanceBusState { rooms: Vec::new() }
    }

    /// Index of the room for `kind` and `topic`, or the room count when absent.
    pub closed spec fn room_pos(&self, kind: SignalingAdapterKind, topic: Seq<char>) -> int {
        room_index(self.rooms@, kind, topic)
    }

    /// The room for `kind` and `topic`, if it exists.
    pub open spec fn room(&self, kind: SignalingAdapterKind, topic: Seq<char>) -> Option<LocalRoomState> {
        if self.room_pos(kind, topic) < self.room_seq().len() {
            Some(self.room_seq()[self.room_pos(kind, topic)].2)
        } else {
            None
        }
    }

    fn find_room(&self, kind: SignalingAdapterKind, topic: &str) -> (r: Option<usize>)
        requires
            self.wf(),
        ensures
            match r {
                Some(i) => i == self.room_pos(kind, topic@) && i < self.rooms@.len(),
                None => self.room_pos(kind, topic@) == self.rooms@.len(),
            },
    {
        let n = self.rooms.len();
        let mut i: usize = 0;
        let ghost rs = self.rooms@;
        assert(rs.skip(0) =~= rs);
        while i < n
            invariant
                n == self.rooms@.len(),
                rs == self.rooms@,
                i <= n,
                room_index(rs, kind, topic@) == i + room_index(rs.skip(i as int), kind, topic@),
            decreases n - i,
        {
            proof {
                assert(rs.skip(i as int)[0] == rs[i as int]);
            }
            if self.rooms[i].0 == kind && str_equal(self.rooms[i].1.as_str(), topic) {
                return Some(i);
            }
            proof {
                assert(rs.skip(i as int).drop_first() =~= rs.skip(i + 1));
            }
            i = i + 1;
        }
        None
    }

    /// Create the room for `kind` and `topic` when it does not exist yet.
    pub fn ensure_room(&mut self, kind: SignalingAdapterKind, topic: &str) -> (i: usize)
        requires
            old(self).wf(),
        ensures
            final(self).wf(),
            i == final(self).room_pos(kind, topic@),
            i < final(self).room_seq().len(),
            old(self).room(kind, topic@) matches Some(r) ==> final(self).room_seq() == old(self).room_seq()
                && final(self).room(kind, topic@) == Some(r),
            old(self).room(kind, topic@) is None ==> (final(self).room(kind, topic@) matches Some(r) && r.presence@.len() == 0
                && r.signals@.len() == 0 && r.controls@.len() == 0)
                && forall|k: SignalingAdapterKind, t: Seq<char>| !(k == kind && t == topic@) ==> #[trigger] final(self).room(k, t) == old(self).room(k, t),
    {
        match self.find_room(kind, topic) {
            Some(i) => i,
            None => {
                let ghost s = self.rooms@;
                let key_rank = kind_index(kind);
                let n = self.rooms.len();
                let mut i: usize = 0;
                while i < n && (kind_index(self.rooms[i].0) < key_rank || (kind_index(self.rooms[i].0) == key_rank
                    && crate::order::str_lt(self.rooms[i].1.as_str(), topic)))
                    invariant
                        n == self.rooms@.len(),
                        s == self.rooms@,
                        key_rank as int == kind_rank(kind),
                        i <= n,
                        forall|j: int| 0 <= j < i ==> room_lt(((#[trigger] s[j]).0, s[j].1@), (kind, topic@)),
                    decreases n - i,
                {
                    i = i + 1;
                }
                proof {
                    lemma_room_index_absent(s, kind, topic@);
                    assert forall|j: int| i <= j < s.len() implies room_lt((kind, topic@), ((#[trigger] s[j]).0, s[j].1@)) by {
                        lemma_room_lt_trichotomy((s[i as int].0, s[i as int].1@), (kind, topic@));
                        if j > i {
                            lemma_room_lt_transitive((kind, topic@), (s[i as int].0, s[i as int].1@), (s[j].0, s[j].1@));
                        }
                        if (s[i as int].0, s[i as int].1@) == (kind, topic@) {
                            assert(s[i as int].0 == kind && s[i as int].1@ == topic@);
                        }
                    }
                }
                self.rooms.insert(i, (kind, text(topic), LocalRoomState::empty()));
                proof {
                    let t = self.rooms@;
                    assert forall|a: int, b: int| 0 <= a < b < t.len() implies room_lt(((#[trigger] t[a]).0, t[a].1@), ((#[trigger] t[b]).0, t[b].1@)) by {
                        if b < i {
                            assert(t[a] == s[a] && t[b] == s[b]);
                        } else if b == i {
                            assert(t[a] == s[a]);
                        } else if a < i {
                            assert(t[a] == s[a] && t[b] == s[b - 1]);
                            lemma_room_lt_transitive((s[a].0, s[a].1@), (kind, topic@), (s[b - 1].0, s[b - 1].1@));
                        } else if a == i {
                            assert(t[b] == s[b - 1]);
                        } else {
                            assert(t[a] == s[a - 1] && t[b] == s[b - 1]);
                        }
                    }
                    lemma_room_index_sorted(t, i as int);
                    assert forall|k: SignalingAdapterKind, tp: Seq<char>| !(k == kind && tp == topic@) implies #[trigger] self.room(k, tp) == old(self).room(k, tp) by {
                        lemma_room_index_insert(s, i as int, t, k, tp);
                    }
                }
                i
            },
        }
    }

    /// Presence held for a room, empty when the room does not exist.
    pub open spec fn presence_of(&self, kind: SignalingAdapterKind, topic: Seq<char>) -> Seq<PresenceView> {
        match self.room(kind, topic) {
            Some(r) => pviews(r.presence@),
            None => Seq::empty(),
        }
    }

    /// Pending signals of a room, empty when the room does not exist.
    pub open spec fn signals_of(&self, kind: SignalingAdapterKind, topic: Seq<char>) -> Seq<SignalView> {
        match self.room(kind, topic) {
            Some(r) => sviews(r.signals@),
            None => Seq::empty(),
        }
    }

    /// Pending control broadcasts of a room, empty when the room does not exist.
    pub open spec fn controls_of(&self, kind: SignalingAdapterKind, topic: Seq<char>) -> Seq<ControlView> {
        match self.room(kind, topic) {
            Some(r) => ctviews(r.controls@),
            None => Seq::empty(),
        }
    }

    /// Every room other than `kind`/`topic` is as in `old`.
    pub open spec fn others_unchanged(&self, old: Self, kind: SignalingAdapterKind, topic: Seq<char>) -> bool {
        forall|k: SignalingAdapterKind, t: Seq<char>| !(k == kind && t == topic) ==> #[trigger] self.room(k, t) == old.room(k, t)
    }

    fn swap_room(&mut self, i: usize, room: LocalRoomState) -> (prev: LocalRoomState)
        requires
            old(self).wf(),
            i < old(self).rooms@.len(),
        ensures
            final(self).wf(),
            prev == old(self).rooms@[i as int].2,
            final(self).rooms@.len() == old(self).rooms@.len(),
            final(self).rooms@[i as int].0 == old(self).rooms@[i as int].0,
            final(self).rooms@[i as int].1 == old(self).rooms@[i as int].1,
            final(self).room(old(self).rooms@[i as int].0, old(self).rooms@[i as int].1@) == Some(room),
            final(self).room_pos(old(self).rooms@[i as int].0, old(self).rooms@[i as int].1@) == i,
            final(self).others_unchanged(*old(self), old(self).rooms@[i as int].0, old(self).rooms@[i as int].1@),
    {
        let ghost s = self.rooms@;
        let (k, t, prev) = self.rooms.remove(i);
        self.rooms.insert(i, (k, t, room));
        proof {
            let u = self.rooms@;
            assert(u =~= s.update(i as int, (s[i as int].0, s[i as int].1, room)));
            assert forall|a: int, b: int| 0 <= a < b < u.len() implies room_lt(((#[trigger] u[a]).0, u[a].1@), ((#[trigger] u[b]).0, u[b].1@)) by {
                assert(u[a].0 == s[a].0 && u[a].1 == s[a].1);
                assert(u[b].0 == s[b].0 && u[b].1 == s[b].1);
            }
            lemma_room_index_sorted(s, i as int);
            lemma_room_index_sorted(u, i as int);
            assert forall|kk: SignalingAdapterKind, tt: Seq<char>| !(kk == s[i as int].0 && tt == s[i as int].1@) implies #[trigger] self.room(kk, tt) == old(self).room(kk, tt) by {
                lemma_room_index_same_keys(s, u, kk, tt);
                lemma_room_index_bounds(s, kk, tt);
                let p = room_index(s, kk, tt);
                if p < s.len() {
                    assert(p != i);
                }
            }
        }
        prev
    }

    /// Publish sealed presence from `local_peer` into a room, creating the room.
    pub fn publish_presence(
        &mut self,
        kind: SignalingAdapterKind,
        topic: &str,
        local_peer: &SignalingPeerId,
        encrypted_presence: OpaqueSignalingPayload,
        ttl_seconds: u32,
    ) -> (r: Result<(), TransportError>)
        requires
            old(self).wf(),
        ensures
            final(self).wf(),
            leaks_plaintext(encrypted_presence.bytes@) ==> (r matches Err(TransportError::PlaintextLeak) && final(self).room_seq() == old(self).room_seq()),
            !leaks_plaintext(encrypted_presence.bytes@) && ttl_seconds == 0 ==> (r matches Err(TransportError::SignalingAdapter(m))
                && m@ == "presence ttl must be non-zero"@ && final(self).room_seq() == old(self).room_seq()),
            !leaks_plaintext(encrypted_presence.bytes@) && ttl_seconds != 0 ==> r is Ok && final(self).presence_of(kind, topic@)
                == old(self).presence_of(kind, topic@).push((local_peer.0@, encrypted_presence.bytes@, ttl_seconds))
                && final(self).signals_of(kind, topic@) == old(self).signals_of(kind, topic@)
                && final(self).controls_of(kind, topic@) == old(self).controls_of(kind, topic@)
                && final(self).others_unchanged(*old(self), kind, topic@),
    {
        match reject_forbidden_plaintext(encrypted_presence.bytes.as_slice()) {
            Err(e) => {
                return Err(e);
            },
            Ok(()) => {},
        }
        if ttl_seconds == 0 {
            return Err(TransportError::SignalingAdapter(text("presence ttl must be non-zero")));
        }
        let ghost before = *self;
        let i = self.ensure_room(kind, topic);
        let ghost mid = *self;
        proof {
            lemma_room_index_bounds(mid.rooms@, kind, topic@);
        }
        let mut room = self.swap_room(i, LocalRoomState::empty());
        let ghost taken = room;
        let event = PresenceEvent { peer_id: local_peer.clone(), encrypted_presence, ttl_seconds };
        room.presence.push(event);
        let ghost after_take = *self;
        self.swap_room(i, room);
        proof {
            assert(pviews(room.presence@) =~= pviews(taken.presence@).push(pview(event)));
            assert(mid.room(kind, topic@) == Some(taken));
            if before.room(kind, topic@) is None {
                assert(pviews(taken.presence@) =~= Seq::<PresenceView>::empty());
                assert(sviews(taken.signals@) =~= Seq::<SignalView>::empty());
                assert(ctviews(taken.controls@) =~= Seq::<ControlView>::empty());
            }
            lemma_others_chain(before, mid, after_take, *self, kind, topic@);
        }
        Ok(())
    }

    /// Send a sealed negotiation signal from `local_peer` to `to_peer`, creating the room.
    pub fn send_signal(
        &mut self,
        kind: SignalingAdapterKind,
        topic: &str,
        local_peer: &SignalingPeerId,
        to_peer: SignalingPeerId,
        payload: SealedWebRtcNegotiationPayload,
    ) -> (r: Result<(), TransportError>)
        requires
            old(self).wf(),
        ensures
            final(self).wf(),
            leaks_plaintext(payload.ciphertext@) ==> (r matches Err(TransportError::PlaintextLeak) && final(self).room_seq() == old(self).room_seq()),
            !leaks_plaintext(payload.ciphertext@) ==> r is Ok && final(self).signals_of(kind, topic@)
                == old(self).signals_of(kind, topic@).push((local_peer.0@, to_peer.0@, payload.ciphertext@))
                && final(self).presence_of(kind, topic@) == old(self).presence_of(kind, topic@)
                && final(self).controls_of(kind, topic@) == old(self).controls_of(kind, topic@)
                && final(self).others_unchanged(*old(self), kind, topic@),
    {
        match reject_forbidden_plaintext(payload.ciphertext.as_slice()) {
            Err(e) => {
                return Err(e);
            },
            Ok(()) => {},
        }
        let ghost before = *self;
        let i = self.ensure_room(kind, topic);
        let ghost mid = *self;
        proof {
            lemma_room_index_bounds(mid.rooms@, kind, topic@);
        }
        let mut room = self.swap_room(i, LocalRoomState::empty());
        let ghost taken = room;
        let signal = PeerSignal { from_peer: local_peer.clone(), to_peer, payload };
        room.signals.push(signal);
        let ghost after_take = *self;
        self.swap_room(i, room);
        proof {
            assert(sviews(room.signals@) =~= sviews(taken.signals@).push(sview(signal)));
            if before.room(kind, topic@) is None {
                assert(pviews(taken.presence@) =~= Seq::<PresenceView>::empty());
                assert(sviews(taken.signals@) =~= Seq::<SignalView>::empty());
                assert(ctviews(taken.controls@) =~= Seq::<ControlView>::empty());
            }
            lemma_others_chain(before, mid, after_take, *self, kind, topic@);
        }
        Ok(())
    }

    /// Broadcast a sealed control frame from `local_peer`, creating the room.
    pub fn broadcast_control(
        &mut self,
        kind: SignalingAdapterKind,
        topic: &str,
        local_peer: &SignalingPeerId,
        sealed_payload: OpaqueSignalingPayload,
    ) -> (r: Result<(), TransportError>)
        requires
            old(self).wf(),
        ensures
            final(self).wf(),
            leaks_plaintext(sealed_payload.bytes@) ==> (r matches Err(TransportError::PlaintextLeak) && final(self).room_seq() == old(self).room_seq()),
            !leaks_plaintext(sealed_payload.bytes@) ==> r is Ok && final(self).controls_of(kind, topic@)
                == old(self).controls_of(kind, topic@).push((local_peer.0@, sealed_payload.bytes@))
                && final(self).presence_of(kind, topic@) == old(self).presence_of(kind, topic@)
                && final(self).signals_of(kind, topic@) == old(self).signals_of(kind, topic@)
                && final(self).others_unchanged(*old(self), kind, topic@),
    {
        match reject_forbidden_plaintext(sealed_payload.bytes.as_slice()) {
            Err(e) => {
                return Err(e);
            },
            Ok(()) => {},
        }
        let ghost before = *self;
        let i = self.ensure_room(kind, topic);
        let ghost mid = *self;
        proof {
            lemma_room_index_bounds(mid.rooms@, kind, topic@);
        }
        let mut room = self.swap_room(i, LocalRoomState::empty());
        let ghost taken = room;
        let control = ControlBroadcast { from_peer: local_peer.clone(), payload: sealed_payload };
        room.controls.push(control);
        let ghost after_take = *self;
        self.swap_room(i, room);
        proof {
            assert(ctviews(room.controls@) =~= ctviews(taken.controls@).push(ctview(control)));
            if before.room(kind, topic@) is None {
                assert(pviews(taken.presence@) =~= Seq::<PresenceView>::empty());
                assert(sviews(taken.signals@) =~= Seq::<SignalView>::empty());
                assert(ctviews(taken.controls@) =~= Seq::<ControlView>::empty());
            }
            lemma_others_chain(before, mid, after_take, *self, kind, topic@);
        }
        Ok(())
    }

    /// Presence currently published in a room; empty when the room does not exist.
    pub fn subscribe_presence(&self, kind: SignalingAdapterKind, topic: &str) -> (r: Vec<PresenceEvent>)
        requires
            self.wf(),
        ensures
            pviews(r@) == self.presence_of(kind, topic@),
    {
        match self.find_room(kind, topic) {
            None => {
                let r: Vec<PresenceEvent> = Vec::new();
                assert(pviews(r@) =~= Seq::<PresenceView>::empty());
                r
            },
            Some(i) => {
                proof {
                    lemma_room_index_bounds(self.rooms@, kind, topic@);
                }
                let src = &self.rooms[i].2.presence;
                let mut out: Vec<PresenceEvent> = Vec::new();
                let n = src.len();
                let mut j: usize = 0;
                while j < n
                    invariant
                        n == src@.len(),
                        j <= n,
                        out@.len() == j,
                        forall|k: int| 0 <= k < j ==> #[trigger] pview(out@[k]) == pview(src@[k]),
                    decreases n - j,
                {
                    out.push(src[j].clone());
                    j = j + 1;
                }
                assert(pviews(out@) =~= pviews(src@));
                out
            },
        }
    }

    /// Deliver the signals addressed to `local_peer`, in order, and drop them
    /// from the room.
    pub fn take_signals(&mut self, kind: SignalingAdapterKind, topic: &str, local_peer: &SignalingPeerId) -> (r: Vec<PeerSignal>)
        requires
            old(self).wf(),
        ensures
            final(self).wf(),
            sviews(r@) == old(self).signals_of(kind, topic@).filter(to_peer(local_peer.0@)),
            final(self).signals_of(kind, topic@) == old(self).signals_of(kind, topic@).filter(not_to_peer(local_peer.0@)),
            final(self).presence_of(kind, topic@) == old(self).presence_of(kind, topic@),
            final(self).controls_of(kind, topic@) == old(self).controls_of(kind, topic@),
            final(self).others_unchanged(*old(self), kind, topic@),
    {
        let i = match self.find_room(kind, topic) {
            None => {
                let r: Vec<PeerSignal> = Vec::new();
                assert(sviews(r@) =~= Seq::<SignalView>::empty());
                assert(self.others_unchanged(*old(self), kind, topic@));
                return r;
            },
            Some(i) => i,
        };
        let ghost before = *self;
        proof {
            lemma_room_index_bounds(self.rooms@, kind, topic@);
        }
        let mut room = self.swap_room(i, LocalRoomState::empty());
        let ghost taken = room;
        let mut signals = Vec::new();
        std::mem::swap(&mut signals, &mut room.signals);
        let (delivered, kept) = split_signals(signals, local_peer);
        room.signals = kept;
        let ghost mid = *self;
        self.swap_room(i, room);
        proof {
            assert(before.room(kind, topic@) == Some(taken));
            lemma_others_chain(before, before, mid, *self, kind, topic@);
        }
        delivered
    }

    /// Deliver the control broadcasts sent by other peers, in order, and drop
    /// them from the room.
    pub fn take_control_payloads(&mut self, kind: SignalingAdapterKind, topic: &str, local_peer: &SignalingPeerId) -> (r: Vec<ControlBroadcast>)
        requires
            old(self).wf(),
        ensures
            final(self).wf(),
            ctviews(r@) == old(self).controls_of(kind, topic@).filter(from_other(local_peer.0@)),
            final(self).controls_of(kind, topic@) == old(self).controls_of(kind, topic@).filter(from_self(local_peer.0@)),
            final(self).presence_of(kind, topic@) == old(self).presence_of(kind, topic@),
            final(self).signals_of(kind, topic@) == old(self).signals_of(kind, topic@),
            final(self).others_unchanged(*old(self), kind, topic@),
    {
        let i = match self.find_room(kind, topic) {
            None => {
                let r: Vec<ControlBroadcast> = Vec::new();
                assert(ctviews(r@) =~= Seq::<ControlView>::empty());
                assert(self.others_unchanged(*old(self), kind, topic@));
                return r;
            },
            Some(i) => i,
        };
        let ghost before = *self;
        proof {
            lemma_room_index_bounds(self.rooms@, kind, topic@);
        }
        let mut room = self.swap_room(i, LocalRoomState::empty());
        let ghost taken = room;
        let mut controls = Vec::new();
        std::mem::swap(&mut controls, &mut room.controls);
        let (delivered, kept) = split_controls(controls, local_peer);
        room.controls = kept;
        let ghost mid = *self;
        self.swap_room(i, room);
        proof {
            assert(before.room(kind, topic@) == Some(taken));
            lemma_others_chain(before, before, mid, *self, kind, topic@);
        }
        delivered
    }

    /// Remove everything `local_peer` left in a room: its presence, signals
    /// from or to it, and its control broadcasts.
    pub fn leave(&mut self, kind: SignalingAdapterKind, topic: &str, local_peer: &SignalingPeerId)
        requires
            old(self).wf(),
        ensures
            final(self).wf(),
            final(self).presence_of(kind, topic@) == old(self).presence_of(kind, topic@).filter(presence_other(local_peer.0@)),
            final(self).signals_of(kind, topic@) == old(self).signals_of(kind, topic@).filter(signal_other(local_peer.0@)),
            final(self).controls_of(kind, topic@) == old(self).controls_of(kind, topic@).filter(from_other(local_peer.0@)),
            final(self).others_unchanged(*old(self), kind, topic@),
    {
        let i = match self.find_room(kind, topic) {
            None => {
                assert(Seq::<PresenceView>::empty().filter(presence_other(local_peer.0@)) =~= Seq::<PresenceView>::empty()) by {
                    reveal(Seq::filter);
                }
                assert(Seq::<SignalView>::empty().filter(signal_other(local_peer.0@)) =~= Seq::<SignalView>::empty()) by {
                    reveal(Seq::filter);
                }
                assert(Seq::<ControlView>::empty().filter(from_other(local_peer.0@)) =~= Seq::<ControlView>::empty()) by {
                    reveal(Seq::filter);
                }
                assert(self.others_unchanged(*old(self), kind, topic@));
                return;
            },
            Some(i) => i,
        };
        let ghost before = *self;
        proof {
            lemma_room_index_bounds(self.rooms@, kind, topic@);
        }
        let mut room = self.swap_room(i, LocalRoomState::empty());
        let ghost taken = room;
        let mut presence = Vec::new();
        std::mem::swap(&mut presence, &mut room.presence);
        room.presence = keep_presence_of_others(presence, local_peer);
        let mut signals = Vec::new();
        std::mem::swap(&mut signals, &mut room.signals);
        room.signals = keep_signals_of_others(signals, local_peer);
        let mut controls = Vec::new();
        std::mem::swap(&mut controls, &mut room.controls);
        let (others, _own) = split_controls(controls, local_peer);
        room.controls = others;
        let ghost mid = *self;
        self.swap_room(i, room);
        proof {
            assert(before.room(kind, topic@) == Some(taken));
            lemma_others_chain(before, before, mid, *self, kind, topic@);
        }
    }

    /// Relay-visible material currently held by the bus, room by room.
    pub fn relay_visible_material(&self) -> (r: Vec<Vec<u8>>)
        ensures
            r@.map_values(|v: Vec<u8>| v@) == rooms_material(self.room_seq()),
    {
        let mut out: Vec<Vec<u8>> = Vec::new();
        let n = self.rooms.len();
        let mut i: usize = 0;
        let ghost f = |v: Vec<u8>| v@;
        assert(self.rooms@.take(0) =~= Seq::<(SignalingAdapterKind, String, LocalRoomState)>::empty());
        while i < n
            invariant
                n == self.rooms@.len(),
                i <= n,
                f == (|v: Vec<u8>| v@),
                out@.map_values(f) == rooms_material(self.rooms@.take(i as int)),
            decreases n - i,
        {
            let room = &self.rooms[i];
            let ghost start = out@.map_values(f);
            let mut kind_bytes: Vec<u8> = Vec::new();
            crate::digest::push_str_bytes(&mut kind_bytes, room.0.canonical_name());
            out.push(kind_bytes);
            let mut topic_bytes: Vec<u8> = Vec::new();
            crate::digest::push_str_bytes(&mut topic_bytes, room.1.as_str());
            out.push(topic_bytes);
            let ghost base = out@.len();
            proof {
                assert(out@.map_values(f) =~= start + seq![encode_utf8(room.0.name()), encode_utf8(room.1@)]);
            }
            let ghost head = out@.map_values(f);
            let p = room.2.presence.len();
            let mut j: usize = 0;
            while j < p
                invariant
                    p == room.2.presence@.len(),
                    j <= p,
                    f == (|v: Vec<u8>| v@),
                    out@.map_values(f) == head + presence_material(room.2.presence@.take(j as int)),
                decreases p - j,
            {
                let e = &room.2.presence[j];
                let mut bytes: Vec<u8> = Vec::new();
                crate::digest::push_str_bytes(&mut bytes, e.peer_id.0.as_str());
                crate::digest::push_bytes(&mut bytes, e.encrypted_presence.bytes.as_slice());
                let ghost before = out@;
                let ghost pushed = bytes@;
                out.push(bytes);
                proof {
                    assert(pushed =~= presence_bytes(*e));
                    assert(out@.map_values(f) =~= before.map_values(f).push(pushed));
                    assert(room.2.presence@.take(j + 1).drop_last() =~= room.2.presence@.take(j as int));
                    assert(room.2.presence@.take(j + 1).last() == *e);
                    assert(out@.map_values(f) =~= head + presence_material(room.2.presence@.take(j + 1)));
                }
                j = j + 1;
            }
            assert(room.2.presence@.take(p as int) =~= room.2.presence@);
            let ghost head2 = out@.map_values(f);
            let s = room.2.signals.len();
            let mut k: usize = 0;
            while k < s
                invariant
                    s == room.2.signals@.len(),
                    k <= s,
                    f == (|v: Vec<u8>| v@),
                    out@.map_values(f) == head2 + signal_material(room.2.signals@.take(k as int)),
                decreases s - k,
            {
                let sg = &room.2.signals[k];
                let mut bytes: Vec<u8> = Vec::new();
                crate::digest::push_str_bytes(&mut bytes, sg.from_peer.0.as_str());
                crate::digest::push_str_bytes(&mut bytes, sg.to_peer.0.as_str());
                crate::digest::push_bytes(&mut bytes, sg.payload.ciphertext.as_slice());
                let ghost before = out@;
                let ghost pushed = bytes@;
                out.push(bytes);
                proof {
                    assert(pushed =~= signal_bytes(*sg));
                    assert(out@.map_values(f) =~= before.map_values(f).push(pushed));
                    assert(room.2.signals@.take(k + 1).drop_last() =~= room.2.signals@.take(k as int));
                    assert(room.2.signals@.take(k + 1).last() == *sg);
                    assert(out@.map_values(f) =~= head2 + signal_material(room.2.signals@.take(k + 1)));
                }
                k = k + 1;
            }
            assert(room.2.signals@.take(s as int) =~= room.2.signals@);
            let ghost head3 = out@.map_values(f);
            let c = room.2.controls.len();
            let mut m: usize = 0;
            while m < c
                invariant
                    c == room.2.controls@.len(),
                    m <= c,
                    f == (|v: Vec<u8>| v@),
                    out@.map_values(f) == head3 + control_material(room.2.controls@.take(m as int)),
                decreases c - m,
            {
                let cb = &room.2.controls[m];
                let mut bytes: Vec<u8> = Vec::new();
                crate::digest::push_str_bytes(&mut bytes, cb.from_peer.0.as_str());
                crate::digest::push_bytes(&mut bytes, cb.payload.bytes.as_slice());
                let ghost before = out@;
                let ghost pushed = bytes@;
                out.push(bytes);
                proof {
                    assert(pushed =~= control_bytes(*cb));
                    assert(out@.map_values(f) =~= before.map_values(f).push(pushed));
                    assert(room.2.controls@.take(m + 1).drop_last() =~= room.2.controls@.take(m as int));
                    assert(room.2.controls@.take(m + 1).last() == *cb);
                    assert(out@.map_values(f) =~= head3 + control_material(room.2.controls@.take(m + 1)));
                }
                m = m + 1;
            }
            assert(room.2.controls@.take(c as int) =~= room.2.controls@);
            proof {
                assert(self.rooms@.take(i + 1).drop_last() =~= self.rooms@.take(i as int));
                assert(self.rooms@.take(i + 1).last() == self.rooms@[i as int]);
                assert(out@.map_values(f) =~= rooms_material(self.rooms@.take(i + 1)));
            }
            i = i + 1;
        }
        assert(self.rooms@.take(n as int) =~= self.rooms@);
        out
    }
}

fn split_signals(v: Vec<PeerSignal>, peer: &SignalingPeerId) -> (r: (Vec<PeerSignal>, Vec<PeerSignal>))
    ensures
        sviews(r.0@) == sviews(v@).filter(to_peer(peer.0@)),
        sviews(r.1@) == sviews(v@).filter(not_to_peer(peer.0@)),
{
    let ghost all = sviews(v@);
    let mut rest = v;
    let mut taken: Vec<PeerSignal> = Vec::new();
    let mut kept: Vec<PeerSignal> = Vec::new();
    let n = rest.len();
    let mut i: usize = 0;
    proof {
        reveal(Seq::filter);
        assert(all.take(0) =~= Seq::<SignalView>::empty());
    }
    while i < n
        invariant
            n == all.len(),
            i <= n,
            sviews(rest@) == all.skip(i as int),
            sviews(taken@) == all.take(i as int).filter(to_peer(peer.0@)),
            sviews(kept@) == all.take(i as int).filter(not_to_peer(peer.0@)),
        decreases n - i,
    {
        let ghost r0 = rest@;
        proof {
            assert(sviews(r0).len() == r0.len());
            assert(sviews(r0)[0] == sview(r0[0]));
        }
        let x = rest.remove(0);
        proof {
            assert(sview(x) == all[i as int]);
            assert(all.take(i + 1) =~= all.take(i as int).push(all[i as int]));
            all.take(i as int).lemma_filter_push(all[i as int], to_peer(peer.0@));
            all.take(i as int).lemma_filter_push(all[i as int], not_to_peer(peer.0@));
            assert(rest@ =~= r0.subrange(1, r0.len() as int));
            assert forall|k: int| 0 <= k < sviews(rest@).len() implies #[trigger] sviews(rest@)[k] == all.skip(i + 1)[k] by {
                assert(sviews(rest@)[k] == sview(r0[k + 1]));
                assert(sviews(r0)[k + 1] == all.skip(i as int)[k + 1]);
            }
            assert(sviews(rest@) =~= all.skip(i + 1));
        }
        let ghost t0 = taken@;
        let ghost k0 = kept@;
        if str_equal(x.to_peer.0.as_str(), peer.0.as_str()) {
            taken.push(x);
            assert(sviews(taken@) =~= sviews(t0).push(sview(x)));
        } else {
            kept.push(x);
            assert(sviews(kept@) =~= sviews(k0).push(sview(x)));
        }
        i = i + 1;
    }
    assert(all.take(n as int) =~= all);
    (taken, kept)
}

fn split_controls(v: Vec<ControlBroadcast>, peer: &SignalingPeerId) -> (r: (Vec<ControlBroadcast>, Vec<ControlBroadcast>))
    ensures
        ctviews(r.0@) == ctviews(v@).filter(from_other(peer.0@)),
        ctviews(r.1@) == ctviews(v@).filter(from_self(peer.0@)),
{
    let ghost all = ctviews(v@);
    let mut rest = v;
    let mut others: Vec<ControlBroadcast> = Vec::new();
    let mut own: Vec<ControlBroadcast> = Vec::new();
    let n = rest.len();
    let mut i: usize = 0;
    proof {
        reveal(Seq::filter);
        assert(all.take(0) =~= Seq::<ControlView>::empty());
    }
    while i < n
        invariant
            n == all.len(),
            i <= n,
            ctviews(rest@) == all.skip(i as int),
            ctviews(others@) == all.take(i as int).filter(from_other(peer.0@)),
            ctviews(own@) == all.take(i as int).filter(from_self(peer.0@)),
        decreases n - i,
    {
        let ghost r0 = rest@;
        proof {
            assert(ctviews(r0).len() == r0.len());
            assert(ctviews(r0)[0] == ctview(r0[0]));
        }
        let x = rest.remove(0);
        proof {
            assert(ctview(x) == all[i as int]);
            assert(all.take(i + 1) =~= all.take(i as int).push(all[i as int]));
            all.take(i as int).lemma_filter_push(all[i as int], from_other(peer.0@));
            all.take(i as int).lemma_filter_push(all[i as int], from_self(peer.0@));
            assert(rest@ =~= r0.subrange(1, r0.len() as int));
            assert forall|k: int| 0 <= k < ctviews(rest@).len() implies #[trigger] ctviews(rest@)[k] == all.skip(i + 1)[k] by {
                assert(ctviews(rest@)[k] == ctview(r0[k + 1]));
                assert(ctviews(r0)[k + 1] == all.skip(i as int)[k + 1]);
            }
            assert(ctviews(rest@) =~= all.skip(i + 1));
        }
        let ghost t0 = others@;
        let ghost k0 = own@;
        if !str_equal(x.from_peer.0.as_str(), peer.0.as_str()) {
            others.push(x);
            assert(ctviews(others@) =~= ctviews(t0).push(ctview(x)));
        } else {
            own.push(x);
            assert(ctviews(own@) =~= ctviews(k0).push(ctview(x)));
        }
        i = i + 1;
    }
    assert(all.take(n as int) =~= all);
    (others, own)
}

fn keep_presence_of_others(v: Vec<PresenceEvent>, peer: &SignalingPeerId) -> (r: Vec<PresenceEvent>)
    ensures
        pviews(r@) == pviews(v@).filter(presence_other(peer.0@)),
{
    let ghost all = pviews(v@);
    let mut rest = v;
    let mut kept: Vec<PresenceEvent> = Vec::new();
    let n = rest.len();
    let mut i: usize = 0;
    proof {
        reveal(Seq::filter);
        assert(all.take(0) =~= Seq::<PresenceView>::empty());
    }
    while i < n
        invariant
            n == all.len(),
            i <= n,
            pviews(rest@) == all.skip(i as int),
            pviews(kept@) == all.take(i as int).filter(presence_other(peer.0@)),
        decreases n - i,
    {
        let ghost r0 = rest@;
        proof {
            assert(pviews(r0).len() == r0.len());
            assert(pviews(r0)[0] == pview(r0[0]));
        }
        let x = rest.remove(0);
        proof {
            assert(pview(x) == all[i as int]);
            assert(all.take(i + 1) =~= all.take(i as int).push(all[i as int]));
            all.take(i as int).lemma_filter_push(all[i as int], presence_other(peer.0@));
            assert(rest@ =~= r0.subrange(1, r0.len() as int));
            assert forall|k: int| 0 <= k < pviews(rest@).len() implies #[trigger] pviews(rest@)[k] == all.skip(i + 1)[k] by {
                assert(pviews(rest@)[k] == pview(r0[k + 1]));
                assert(pviews(r0)[k + 1] == all.skip(i as int)[k + 1]);
            }
            assert(pviews(rest@) =~= all.skip(i + 1));
        }
        let ghost k0 = kept@;
        if !str_equal(x.peer_id.0.as_str(), peer.0.as_str()) {
            kept.push(x);
            assert(pviews(kept@) =~= pviews(k0).push(pview(x)));
        }
        i = i + 1;
    }
    assert(all.take(n as int) =~= all);
    kept
}

fn keep_signals_of_others(v: Vec<PeerSignal>, peer: &SignalingPeerId) -> (r: Vec<PeerSignal>)
    ensures
        sviews(r@) == sviews(v@).filter(signal_other(peer.0@)),
{
    let ghost all = sviews(v@);
    let mut rest = v;
    let mut kept: Vec<PeerSignal> = Vec::new();
    let n = rest.len();
    let mut i: usize = 0;
    proof {
        reveal(Seq::filter);
        assert(all.take(0) =~= Seq::<SignalView>::empty());
    }
    while i < n
        invariant
            n == all.len(),
            i <= n,
            sviews(rest@) == all.skip(i as int),
            sviews(kept@) == all.take(i as int).filter(signal_other(peer.0@)),
        decreases n - i,
    {
        let ghost r0 = rest@;
        proof {
            assert(sviews(r0).len() == r0.len());
            assert(sviews(r0)[0] == sview(r0[0]));
        }
        let x = rest.remove(0);
        proof {
            assert(sview(x) == all[i as int]);
            assert(all.take(i + 1) =~= all.take(i as int).push(all[i as int]));
            all.take(i as int).lemma_filter_push(all[i as int], signal_other(peer.0@));
            assert(rest@ =~= r0.subrange(1, r0.len() as int));
            assert forall|k: int| 0 <= k < sviews(rest@).len() implies #[trigger] sviews(rest@)[k] == all.skip(i + 1)[k] by {
                assert(sviews(rest@)[k] == sview(r0[k + 1]));
                assert(sviews(r0)[k + 1] == all.skip(i as int)[k + 1]);
            }
            assert(sviews(rest@) =~= all.skip(i + 1));
        }
        let ghost k0 = kept@;
        if !str_equal(x.from_peer.0.as_str(), peer.0.as_str()) && !str_equal(x.to_peer.0.as_str(), peer.0.as_str()) {
            kept.push(x);
            assert(sviews(kept@) =~= sviews(k0).push(sview(x)));
        }
        i = i + 1;
    }
    assert(all.take(n as int) =~= all);
    kept
}

/// Rooms other than one key stay as they were across a sequence of steps
/// that each leave them unchanged.
proof fn lemma_others_chain(
    a: LocalConformanceBusState,
    b: LocalConformanceBusState,
    c: LocalConformanceBusState,
    d: LocalConformanceBusState,
    kind: SignalingAdapterKind,
    topic: Seq<char>,
)
    requires
        b.others_unchanged(a, kind, topic) || b.room_seq() == a.room_seq(),
        c.others_unchanged(b, kind, topic),
        d.others_unchanged(c, kind, topic),
    ensures
        d.others_unchanged(a, kind, topic),
{
    assert forall|k: SignalingAdapterKind, t: Seq<char>| !(k == kind && t == topic) implies #[trigger] d.room(k, t) == a.room(k, t) by {
        assert(d.room(k, t) == c.room(k, t));
        assert(c.room(k, t) == b.room(k, t));
        if b.room_seq() == a.room_seq() {
            assert(b.room(k, t) == a.room(k, t));
        } else {
            assert(b.room(k, t) == a.room(k, t));
        }
    }
}

} // verus!
