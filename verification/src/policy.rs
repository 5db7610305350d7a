//! Scoped signaling/ICE connectivity policy.
//!
//! Policy-only: derives adapter-facing rendezvous capabilities from committed
//! scope identifiers and sealed bootstrap material, without connecting to any
//! provider.
use vstd::prelude::*;
use vstd::utf8::*;
use crate::digest::{sha256, sha256_of, push_bytes, push_str_bytes};
use crate::ice::{IceEndpointPolicy, policy_error, checked_by};
use crate::keyed::KeyedList;
use crate::text::{all_ws, any_ws, contains_str, has_ws, is_trimmed, is_clean_label, clean_label, join2, lower_hex, lower_hex_spec, only_ws, starts_with, str_contains, str_equal, str_starts_with, text, trimmed};
use crate::transport::{Endpoint, TransportError};

verus! {

/// `r` failed with `InvalidConnectivityPolicy(m)`.
pub open spec fn refused_with<T>(r: Result<T, TransportError>, m: Seq<char>) -> bool {
    r matches Err(TransportError::InvalidConnectivityPolicy(x)) && x@ == m
}

/// Which validation failure a policy value has, if any.
pub enum PolicyFault {
    /// Rejected by a connectivity-policy rule with this message.
    Connectivity(Seq<char>),
    /// Rejected by the ICE endpoint policy with this message.
    Ice(Seq<char>),
}

/// `r` reports `f`: success when there is no fault, else the matching error.
pub open spec fn reports<T>(r: Result<T, TransportError>, f: Option<PolicyFault>) -> bool {
    match f {
        None => r is Ok,
        Some(PolicyFault::Connectivity(m)) => refused_with(r, m),
        Some(PolicyFault::Ice(m)) => r matches Err(TransportError::InvalidIcePolicy(x)) && x@ == m,
    }
}

pub open spec fn conn(m: Seq<char>) -> Option<PolicyFault> {
    Some(PolicyFault::Connectivity(m))
}

/// Required production signaling adapter kinds.
#[derive(Clone, Copy, Debug, PartialEq, Eq, PartialOrd, Ord, Structural)]
pub enum SignalingAdapterKind {
    /// MQTT over TLS/WebSocket public or self-hosted broker.
    Mqtt,
    /// Nostr relay signaling adapter.
    Nostr,
    /// IPFS/libp2p PubSub rendezvous adapter.
    IpfsPubsub,
    /// Separate Rust QUIC signaling/rendezvous service.
    DiscryptQuicRendezvous,
}

impl SignalingAdapterKind {
    pub open spec fn name(self) -> Seq<char> {
        match self {
            SignalingAdapterKind::Mqtt => "mqtt"@,
            SignalingAdapterKind::Nostr => "nostr"@,
            SignalingAdapterKind::IpfsPubsub => "ipfs_pubsub"@,
            SignalingAdapterKind::DiscryptQuicRendezvous => "discrypt_quic_rendezvous"@,
        }
    }

    /// Stable adapter kind encoded into policy and rendezvous derivation.
    pub fn canonical_name(self) -> (r: &'static str)
        ensures
            r@ == self.name(),
    {
        match self {
            SignalingAdapterKind::Mqtt => "mqtt",
            SignalingAdapterKind::Nostr => "nostr",
            SignalingAdapterKind::IpfsPubsub => "ipfs_pubsub",
            SignalingAdapterKind::DiscryptQuicRendezvous => "discrypt_quic_rendezvous",
        }
    }
}

/// Connectivity scope where an adapter/ICE policy can be selected.
#[derive(Clone, Copy, Debug, PartialEq, Eq, PartialOrd, Ord, Structural)]
pub enum ConnectivityScopeLevel {
    /// Global application default.
    AppDefault,
    /// Pairwise DM conversation policy.
    Dm,
    /// Group/server default policy.
    Group,
    /// Channel policy inherited from a group unless overridden.
    Channel,
    /// Invite bootstrap snapshot for initial group join or first-contact DM.
    InviteBootstrap,
}

pub open spec fn level_label(level: ConnectivityScopeLevel) -> Seq<char> {
    match level {
        ConnectivityScopeLevel::AppDefault => "app_default"@,
        ConnectivityScopeLevel::Dm => "dm"@,
        ConnectivityScopeLevel::Group => "group"@,
        ConnectivityScopeLevel::Channel => "channel"@,
        ConnectivityScopeLevel::InviteBootstrap => "invite_bootstrap"@,
    }
}

fn level_name(level: ConnectivityScopeLevel) -> (r: &'static str)
    ensures
        r@ == level_label(level),
{
    match level {
        ConnectivityScopeLevel::AppDefault => "app_default",
        ConnectivityScopeLevel::Dm => "dm",
        ConnectivityScopeLevel::Group => "group",
        ConnectivityScopeLevel::Channel => "channel",
        ConnectivityScopeLevel::InviteBootstrap => "invite_bootstrap",
    }
}

/// ASCII hexadecimal digit byte.
pub open spec fn is_hex_byte(b: u8) -> bool {
    (48 <= b && b <= 57) || (65 <= b && b <= 70) || (97 <= b && b <= 102)
}

/// Exactly 64 bytes, all ASCII hex digits.
pub open spec fn is_commitment(v: Seq<char>) -> bool {
    let b = encode_utf8(v);
    b.len() == 64 && forall|i: int| 0 <= i < b.len() ==> is_hex_byte(#[trigger] b[i])
}

pub open spec fn commitment_error(v: Seq<char>) -> Option<PolicyFault> {
    if is_commitment(v) {
        None
    } else {
        conn("scope and endpoint commitments must be 64 hex characters"@)
    }
}

fn validate_commitment(value: &str) -> (r: Result<(), TransportError>)
    ensures
        reports(r, commitment_error(value@)),
{
    let b = value.as_bytes();
    let bad = Err(
        TransportError::InvalidConnectivityPolicy(
            text("scope and endpoint commitments must be 64 hex characters"),
        ),
    );
    if b.len() != 64 {
        return bad;
    }
    let mut i: usize = 0;
    while i < 64
        invariant
            b@.len() == 64,
            b@ == encode_utf8(value@),
            i <= 64,
            forall|j: int| 0 <= j < i ==> is_hex_byte(#[trigger] b@[j]),
        decreases 64 - i,
    {
        let x = b[i];
        if !((48 <= x && x <= 57) || (65 <= x && x <= 70) || (97 <= x && x <= 102)) {
            assert(!is_hex_byte(b@[i as int]));
            return Err(
                TransportError::InvalidConnectivityPolicy(
                    text("scope and endpoint commitments must be 64 hex characters"),
                ),
            );
        }
        i = i + 1;
    }
    Ok(())
}

/// Profile-id token characters: ASCII letters, digits, `-`, `_` and `.`.
pub open spec fn is_token_char(c: char) -> bool {
    ('a' <= c && c <= 'z') || ('A' <= c && c <= 'Z') || ('0' <= c && c <= '9') || c == '-' || c
        == '_' || c == '.'
}

pub open spec fn profile_id_error(v: Seq<char>) -> Option<PolicyFault> {
    if v.len() == 0 || encode_utf8(v).len() > 96 || !is_trimmed(v) || !(forall|i: int|
        0 <= i < v.len() ==> is_token_char(#[trigger] v[i])) {
        conn("profile ids must be trimmed ASCII token strings"@)
    } else {
        None
    }
}

fn validate_profile_id(value: &str) -> (r: Result<(), TransportError>)
    ensures
        reports(r, profile_id_error(value@)),
{
    let bad = Err(
        TransportError::InvalidConnectivityPolicy(text("profile ids must be trimmed ASCII token strings")),
    );
    let n = value.unicode_len();
    if n == 0 || value.as_bytes().len() > 96 || !trimmed(value) {
        return bad;
    }
    let mut i: usize = 0;
    while i < n
        invariant
            n == value@.len(),
            i <= n,
            forall|j: int| 0 <= j < i ==> is_token_char(#[trigger] value@[j]),
        decreases n - i,
    {
        let c = value.get_char(i);
        if !(('a' <= c && c <= 'z') || ('A' <= c && c <= 'Z') || ('0' <= c && c <= '9') || c == '-'
            || c == '_' || c == '.') {
            assert(!is_token_char(value@[i as int]));
            return Err(
                TransportError::InvalidConnectivityPolicy(
                    text("profile ids must be trimmed ASCII token strings"),
                ),
            );
        }
        i = i + 1;
    }
    Ok(())
}

pub open spec fn endpoint_text_error(v: Seq<char>) -> Option<PolicyFault> {
    if v.len() == 0 || encode_utf8(v).len() > 1024 || !is_trimmed(v) || has_ws(v) {
        conn("signaling endpoints must be non-empty, trimmed, and whitespace-free"@)
    } else {
        None
    }
}

fn validate_endpoint_text(value: &str) -> (r: Result<(), TransportError>)
    ensures
        reports(r, endpoint_text_error(value@)),
{
    if value.unicode_len() == 0 || value.as_bytes().len() > 1024 || !trimmed(value) || any_ws(value) {
        return Err(
            TransportError::InvalidConnectivityPolicy(
                text("signaling endpoints must be non-empty, trimmed, and whitespace-free"),
            ),
        );
    }
    Ok(())
}

/// Cleartext endpoints that only reach this machine.
pub open spec fn is_loopback(v: Seq<char>) -> bool {
    starts_with(v, "http://127.0.0.1:"@) || starts_with(v, "ws://127.0.0.1:"@) || starts_with(
        v,
        "mqtt://127.0.0.1:"@,
    ) || starts_with(v, "http://[::1]:"@) || starts_with(v, "ws://[::1]:"@) || starts_with(
        v,
        "mqtt://[::1]:"@,
    ) || starts_with(v, "/ip4/127.0.0.1/"@) || starts_with(v, "/ip6/::1/"@)
}

pub fn is_loopback_cleartext(value: &str) -> (b: bool)
    ensures
        b == is_loopback(value@),
{
    str_starts_with(value, "http://127.0.0.1:") || str_starts_with(value, "ws://127.0.0.1:")
        || str_starts_with(value, "mqtt://127.0.0.1:") || str_starts_with(value, "http://[::1]:")
        || str_starts_with(value, "ws://[::1]:") || str_starts_with(value, "mqtt://[::1]:")
        || str_starts_with(value, "/ip4/127.0.0.1/") || str_starts_with(value, "/ip6/::1/")
}

/// Whether a multiaddr starts with a direct address: an IPv4/IPv6 address or
/// a DNS name resolved to one (`/dns/`, `/dns4/`, `/dns6/`).
pub open spec fn starts_with_direct_address(rest: Seq<char>) -> bool {
    starts_with(rest, "/ip4/"@) || starts_with(rest, "/ip6/"@) || starts_with(rest, "/dns/"@) || starts_with(
        rest,
        "/dns4/"@,
    ) || starts_with(rest, "/dns6/"@)
}

/// A direct TCP multiaddr naming a peer, optionally behind `libp2p://`.
pub open spec fn is_direct_peer_multiaddr(v: Seq<char>) -> bool {
    let rest = if starts_with(v, "libp2p://"@) {
        v.subrange(9, v.len() as int)
    } else {
        v
    };
    starts_with_direct_address(rest) && contains_str(rest, "/tcp/"@) && contains_str(rest, "/p2p/"@)
}

pub fn is_ipfs_public_direct_peer_multiaddr(value: &str) -> (b: bool)
    ensures
        b == is_direct_peer_multiaddr(value@),
{
    let rest = if str_starts_with(value, "libp2p://") {
        proof {
            reveal_strlit("libp2p://");
        }
        value.substring_char(9, value.unicode_len())
    } else {
        value
    };
    (str_starts_with(rest, "/ip4/") || str_starts_with(rest, "/ip6/") || str_starts_with(rest, "/dns/")
        || str_starts_with(rest, "/dns4/") || str_starts_with(rest, "/dns6/")) && str_contains(rest, "/tcp/")
        && str_contains(rest, "/p2p/")
}

/// Committed scope id. Display names never belong in this value.
#[derive(Debug, PartialEq, Eq)]
pub struct ConversationScope {
    /// Scope level.
    pub level: ConnectivityScopeLevel,
    /// Stable commitment for the group, DM, channel, invite, or app default.
    pub scope_id_commitment: String,
    /// Optional parent group commitment for channel inheritance.
    pub parent_scope_commitment: Option<String>,
}

impl Clone for ConversationScope {
    fn clone(&self) -> (r: Self)
        ensures
            r == *self,
    {
        ConversationScope {
            level: self.level,
            scope_id_commitment: self.scope_id_commitment.clone(),
            parent_scope_commitment: match &self.parent_scope_commitment {
                Some(p) => Some(p.clone()),
                None => None,
            },
        }
    }
}

/// Validation failure of a scope with these parts, if any.
pub open spec fn scope_fault(
    level: ConnectivityScopeLevel,
    id: Seq<char>,
    parent: Option<Seq<char>>,
) -> Option<PolicyFault> {
    let own = match level {
        ConnectivityScopeLevel::AppDefault => if id == "app_default"@ {
            None
        } else {
            conn("app default scope must use the app_default commitment label"@)
        },
        _ => commitment_error(id),
    };
    if own is Some {
        own
    } else {
        match parent {
            Some(p) => commitment_error(p),
            None => None,
        }
    }
}

impl ConversationScope {
    pub open spec fn parent_view(&self) -> Option<Seq<char>> {
        match self.parent_scope_commitment {
            Some(p) => Some(p@),
            None => None,
        }
    }

    pub open spec fn fault(&self) -> Option<PolicyFault> {
        scope_fault(self.level, self.scope_id_commitment@, self.parent_view())
    }

    /// Construct and validate a committed conversation scope.
    pub fn new(level: ConnectivityScopeLevel, scope_id_commitment: &str) -> (r: Result<Self, TransportError>)
        ensures
            reports(r, scope_fault(level, scope_id_commitment@, None)),
            r matches Ok(s) ==> s.level == level && s.scope_id_commitment@ == scope_id_commitment@
                && s.parent_scope_commitment is None,
    {
        let scope = ConversationScope {
            level,
            scope_id_commitment: String::from_str(scope_id_commitment),
            parent_scope_commitment: None,
        };
        match scope.validate() {
            Err(e) => Err(e),
            Ok(()) => Ok(scope),
        }
    }

    /// Return a copy with the parent group commitment used by channel policy inheritance.
    pub fn with_parent_scope_commitment(self, parent_scope_commitment: &str) -> (r: Result<Self, TransportError>)
        ensures
            reports(r, scope_fault(self.level, self.scope_id_commitment@, Some(parent_scope_commitment@))),
            r matches Ok(s) ==> s.level == self.level && s.scope_id_commitment
                == self.scope_id_commitment && s.parent_view() == Some(parent_scope_commitment@),
    {
        let mut s = self;
        s.parent_scope_commitment = Some(String::from_str(parent_scope_commitment));
        match s.validate() {
            Err(e) => Err(e),
            Ok(()) => Ok(s),
        }
    }

    /// Validate that the scope uses commitments rather than display names.
    pub fn validate(&self) -> (r: Result<(), TransportError>)
        ensures
            reports(r, self.fault()),
    {
        match self.level {
            ConnectivityScopeLevel::AppDefault => {
                if !str_equal(self.scope_id_commitment.as_str(), "app_default") {
                    return Err(
                        TransportError::InvalidConnectivityPolicy(
                            text("app default scope must use the app_default commitment label"),
                        ),
                    );
                }
            },
            _ => {
                match validate_commitment(self.scope_id_commitment.as_str()) {
                    Err(e) => return Err(e),
                    Ok(()) => {},
                }
            },
        }
        match &self.parent_scope_commitment {
            Some(parent) => validate_commitment(parent.as_str()),
            None => Ok(()),
        }
    }
}

/// Public-provider metadata posture for derived topics/tags.
#[derive(Clone, Copy, Debug, PartialEq, Eq, Structural)]
pub enum ProviderMetadataPosture {
    /// Topic/tag is a deterministic hash commitment.
    HashedTopic,
    /// Topic/tag is random and signed in the invite/bootstrap snapshot.
    RandomTopic,
    /// Topic/tag rotates by epoch while preserving scope commitment.
    EpochRotatingTopic,
}

/// Ordered adapter fallback behavior for one scope.
#[derive(Clone, Copy, Debug, PartialEq, Eq, Structural)]
pub enum AdapterFallbackBehavior {
    /// Try every configured adapter until one is usable.
    TryAll,
    /// Select the first currently healthy adapter.
    FirstHealthy,
    /// Use only the manually selected adapter.
    ManualOnly,
}

/// Endpoint security class selected by policy.
#[derive(Clone, Copy, Debug, PartialEq, Eq, Structural)]
pub enum SignalingEndpointSecurity {
    /// Production endpoints must use TLS/WSS/QUIC identity validation.
    ProductionTls,
    /// Cleartext loopback is permitted only for local development tests.
    LocalDevLoopback,
    /// Explicit self-hosted endpoint supplied by user/group/DM policy.
    SelfHostedExplicit,
}

/// Redacted trust label surfaced to UI/diagnostic surfaces.
#[derive(Debug, PartialEq, Eq)]
pub struct AdapterTrustLabel {
    /// Human-readable provider/operator label.
    pub label: String,
    /// Honest trust posture shown to users.
    pub posture: String,
}

impl Clone for AdapterTrustLabel {
    fn clone(&self) -> (r: Self)
        ensures
            r == *self,
    {
        AdapterTrustLabel { label: self.label.clone(), posture: self.posture.clone() }
    }
}

impl AdapterTrustLabel {
    /// Construct a non-empty trust label.
    pub fn new(label: &str, posture: &str) -> (r: Result<Self, TransportError>)
        ensures
            reports(
                r,
                if is_clean_label(label@) && is_clean_label(posture@) {
                    None
                } else {
                    conn("trust labels must be non-empty and trimmed"@)
                },
            ),
            r matches Ok(t) ==> t.label@ == label@ && t.posture@ == posture@,
    {
        if !clean_label(label) || !clean_label(posture) {
            return Err(
                TransportError::InvalidConnectivityPolicy(text("trust labels must be non-empty and trimmed")),
            );
        }
        Ok(AdapterTrustLabel { label: String::from_str(label), posture: String::from_str(posture) })
    }
}

/// Provider endpoint metadata safe to store in connectivity policy.
#[derive(Debug, PartialEq, Eq)]
pub struct SignalingProviderEndpoint {
    /// Adapter endpoint URL or multiaddr.
    pub endpoint: Endpoint,
    /// Endpoint security class.
    pub security: SignalingEndpointSecurity,
    /// Optional operator/region label. This is not a trust root.
    pub operator_label: Option<String>,
    /// Maximum provider message size, when known.
    pub max_message_bytes: Option<u32>,
    /// Whether retained/ephemeral presence is supported by the provider.
    pub retained_presence: bool,
    /// Optional endpoint identity/fingerprint commitment.
    pub trust_fingerprint: Option<String>,
}

fn clone_opt(o: &Option<String>) -> (r: Option<String>)
    ensures
        r == *o,
{
    match o {
        Some(s) => Some(s.clone()),
        None => None,
    }
}

impl Clone for SignalingProviderEndpoint {
    fn clone(&self) -> (r: Self)
        ensures
            r == *self,
    {
        SignalingProviderEndpoint {
            endpoint: self.endpoint.clone(),
            security: self.security,
            operator_label: clone_opt(&self.operator_label),
            max_message_bytes: self.max_message_bytes,
            retained_presence: self.retained_presence,
            trust_fingerprint: clone_opt(&self.trust_fingerprint),
        }
    }
}

/// Schemes a production TLS endpoint of `kind` may use.
pub open spec fn production_scheme_ok(kind: SignalingAdapterKind, v: Seq<char>) -> bool {
    match kind {
        SignalingAdapterKind::Mqtt => starts_with(v, "mqtts://"@) || starts_with(v, "wss://"@),
        SignalingAdapterKind::Nostr => starts_with(v, "wss://"@),
        SignalingAdapterKind::IpfsPubsub => is_direct_peer_multiaddr(v),
        SignalingAdapterKind::DiscryptQuicRendezvous => starts_with(v, "quic://"@) || starts_with(
            v,
            "https://"@,
        ) || starts_with(v, "wss://"@),
    }
}

/// Schemes an explicit self-hosted endpoint may use.
pub open spec fn self_hosted_scheme_ok(v: Seq<char>) -> bool {
    starts_with(v, "mqtts://"@) || starts_with(v, "wss://"@) || starts_with(v, "quic://"@)
        || starts_with(v, "https://"@) || is_direct_peer_multiaddr(v)
}

impl SignalingProviderEndpoint {
    /// First rule this endpoint breaks for an adapter of `kind`, if any.
    pub open spec fn fault_for(&self, kind: SignalingAdapterKind) -> Option<PolicyFault> {
        let v = self.endpoint.0@;
        if endpoint_text_error(v) is Some {
            endpoint_text_error(v)
        } else if self.operator_label matches Some(l) && !is_clean_label(l@) {
            conn("operator label must be non-empty and trimmed"@)
        } else if self.trust_fingerprint matches Some(f) && commitment_error(f@) is Some {
            commitment_error(self.trust_fingerprint->0@)
        } else {
            match self.security {
                SignalingEndpointSecurity::ProductionTls => if production_scheme_ok(kind, v) {
                    None
                } else {
                    conn("production endpoint scheme is invalid for "@ + kind.name())
                },
                SignalingEndpointSecurity::LocalDevLoopback => if is_loopback(v) {
                    None
                } else {
                    conn("local-dev signaling endpoints must be loopback cleartext only"@)
                },
                SignalingEndpointSecurity::SelfHostedExplicit => if self_hosted_scheme_ok(v) {
                    None
                } else {
                    conn("self-hosted signaling endpoint must still use an explicit supported scheme"@)
                },
            }
        }
    }

    /// Construct provider endpoint metadata.
    pub fn new(endpoint: Endpoint, security: SignalingEndpointSecurity) -> (r: Self)
        ensures
            r == (SignalingProviderEndpoint {
                endpoint,
                security,
                operator_label: None,
                max_message_bytes: None,
                retained_presence: false,
                trust_fingerprint: None,
            }),
    {
        SignalingProviderEndpoint {
            endpoint,
            security,
            operator_label: None,
            max_message_bytes: None,
            retained_presence: false,
            trust_fingerprint: None,
        }
    }

    /// Validate endpoint scheme, TLS posture, and redacted labels.
    pub fn validate_for_kind(&self, kind: SignalingAdapterKind) -> (r: Result<(), TransportError>)
        ensures
            reports(r, self.fault_for(kind)),
    {
        let value = self.endpoint.0.as_str();
        match validate_endpoint_text(value) {
            Err(e) => return Err(e),
            Ok(()) => {},
        }
        match &self.operator_label {
            Some(label) => {
                if !clean_label(label.as_str()) {
                    return Err(
                        TransportError::InvalidConnectivityPolicy(
                            text("operator label must be non-empty and trimmed"),
                        ),
                    );
                }
            },
            None => {},
        }
        match &self.trust_fingerprint {
            Some(fingerprint) => match validate_commitment(fingerprint.as_str()) {
                Err(e) => return Err(e),
                Ok(()) => {},
            },
            None => {},
        }
        match self.security {
            SignalingEndpointSecurity::ProductionTls => {
                let valid = match kind {
                    SignalingAdapterKind::Mqtt => str_starts_with(value, "mqtts://")
                        || str_starts_with(value, "wss://"),
                    SignalingAdapterKind::Nostr => str_starts_with(value, "wss://"),
                    SignalingAdapterKind::IpfsPubsub => is_ipfs_public_direct_peer_multiaddr(value),
                    SignalingAdapterKind::DiscryptQuicRendezvous => str_starts_with(value, "quic://")
                        || str_starts_with(value, "https://") || str_starts_with(value, "wss://"),
                };
                if !valid {
                    return Err(
                        TransportError::InvalidConnectivityPolicy(
                            join2("production endpoint scheme is invalid for ", kind.canonical_name()),
                        ),
                    );
                }
            },
            SignalingEndpointSecurity::LocalDevLoopback => {
                if !is_loopback_cleartext(value) {
                    return Err(
                        TransportError::InvalidConnectivityPolicy(
                            text("local-dev signaling endpoints must be loopback cleartext only"),
                        ),
                    );
                }
            },
            SignalingEndpointSecurity::SelfHostedExplicit => {
                let valid = str_starts_with(value, "mqtts://") || str_starts_with(value, "wss://")
                    || str_starts_with(value, "quic://") || str_starts_with(value, "https://")
                    || is_ipfs_public_direct_peer_multiaddr(value);
                if !valid {
                    return Err(
                        TransportError::InvalidConnectivityPolicy(
                            text("self-hosted signaling endpoint must still use an explicit supported scheme"),
                        ),
                    );
                }
            },
        }
        Ok(())
    }
}

/// Adapter capabilities used by policy selection and conformance tests.
#[derive(Clone, Copy, Debug, PartialEq, Eq, Structural)]
pub struct SignalingAdapterCapabilities {
    /// Supports expiring presence publication.
    pub presence_ttl: bool,
    /// Supports trickled ICE candidate delivery.
    pub trickle_ice: bool,
    /// Supports room-wide sealed control broadcast.
    pub broadcast_control: bool,
    /// Supports retained presence that can be explicitly cleared on leave.
    pub retained_presence: bool,
    /// Supports redacted health telemetry.
    pub health_telemetry: bool,
}

impl SignalingAdapterCapabilities {
    pub open spec fn production_ok(&self) -> bool {
        self.presence_ttl && self.trickle_ice && self.broadcast_control && self.health_telemetry
    }

    /// Capabilities required by the shared production adapter conformance suite.
    pub fn production_required() -> (r: Self)
        ensures
            r == (SignalingAdapterCapabilities {
                presence_ttl: true,
                trickle_ice: true,
                broadcast_control: true,
                retained_presence: false,
                health_telemetry: true,
            }),
    {
        SignalingAdapterCapabilities {
            presence_ttl: true,
            trickle_ice: true,
            broadcast_control: true,
            retained_presence: false,
            health_telemetry: true,
        }
    }

    /// True when the adapter can satisfy the common production contract.
    pub fn satisfies_production_contract(&self) -> (b: bool)
        ensures
            b == self.production_ok(),
    {
        self.presence_ttl && self.trickle_ice && self.broadcast_control && self.health_telemetry
    }
}

/// First failing endpoint of a list, in order.
pub open spec fn first_endpoint_fault(s: Seq<SignalingProviderEndpoint>, kind: SignalingAdapterKind) -> Option<PolicyFault>
    decreases s.len(),
{
    if s.len() == 0 {
        None
    } else if s[0].fault_for(kind) is Some {
        s[0].fault_for(kind)
    } else {
        first_endpoint_fault(s.drop_first(), kind)
    }
}

/// One configured signaling adapter profile entry.
#[derive(Debug, PartialEq, Eq)]
pub struct SignalingAdapterProfile {
    /// Stable adapter profile id.
    pub profile_id: String,
    /// Adapter kind.
    pub kind: SignalingAdapterKind,
    /// Ordered provider endpoints for this adapter kind.
    pub endpoints: Vec<SignalingProviderEndpoint>,
    /// Metadata posture for provider-visible topics/tags.
    pub metadata_posture: ProviderMetadataPosture,
    /// Provider capabilities used by conformance and fallback.
    pub capabilities: SignalingAdapterCapabilities,
    /// UI/diagnostic trust label.
    pub trust_label: AdapterTrustLabel,
}

impl SignalingAdapterProfile {
    pub open spec fn same(&self, o: &Self) -> bool {
        self.profile_id == o.profile_id && self.kind == o.kind && self.endpoints@ == o.endpoints@
            && self.metadata_posture == o.metadata_posture && self.capabilities == o.capabilities
            && self.trust_label == o.trust_label
    }

    pub open spec fn fault(&self) -> Option<PolicyFault> {
        if profile_id_error(self.profile_id@) is Some {
            profile_id_error(self.profile_id@)
        } else if self.endpoints@.len() == 0 {
            conn("adapter profile must contain at least one endpoint"@)
        } else if !self.capabilities.production_ok() {
            conn("adapter profile does not satisfy production signaling capabilities"@)
        } else {
            first_endpoint_fault(self.endpoints@, self.kind)
        }
    }

    /// Validate profile id, endpoints, and production capability shape.
    pub fn validate(&self) -> (r: Result<(), TransportError>)
        ensures
            reports(r, self.fault()),
    {
        match validate_profile_id(self.profile_id.as_str()) {
            Err(e) => return Err(e),
            Ok(()) => {},
        }
        if self.endpoints.len() == 0 {
            return Err(
                TransportError::InvalidConnectivityPolicy(
                    text("adapter profile must contain at least one endpoint"),
                ),
            );
        }
        if !self.capabilities.satisfies_production_contract() {
            return Err(
                TransportError::InvalidConnectivityPolicy(
                    text("adapter profile does not satisfy production signaling capabilities"),
                ),
            );
        }
        let s = &self.endpoints;
        let n = s.len();
        let mut i: usize = 0;
        assert(s@.skip(0) =~= s@);
        while i < n
            invariant
                n == s@.len(),
                i <= n,
                s@ == self.endpoints@,
                profile_id_error(self.profile_id@) is None,
                self.endpoints@.len() != 0,
                self.capabilities.production_ok(),
                first_endpoint_fault(s@, self.kind) == first_endpoint_fault(s@.skip(i as int), self.kind),
            decreases n - i,
        {
            assert(s@.skip(i as int)[0] == s@[i as int]);
            match s[i].validate_for_kind(self.kind) {
                Err(e) => return Err(e),
                Ok(()) => {},
            }
            assert(s@.skip(i as int).drop_first() =~= s@.skip(i + 1));
            i = i + 1;
        }
        assert(s@.skip(n as int) =~= Seq::<SignalingProviderEndpoint>::empty());
        Ok(())
    }
}

impl Clone for SignalingAdapterProfile {
    fn clone(&self) -> (r: Self)
        ensures
            r.same(self),
    {
        let endpoints = self.endpoints.clone();
        assert(endpoints@ =~= self.endpoints@);
        SignalingAdapterProfile {
            profile_id: self.profile_id.clone(),
            kind: self.kind,
            endpoints,
            metadata_posture: self.metadata_posture,
            capabilities: self.capabilities,
            trust_label: self.trust_label.clone(),
        }
    }
}

/// ICE profile separated from signaling adapter selection.
#[derive(PartialEq, Eq)]
pub struct IceProfile {
    /// Stable ICE profile id.
    pub profile_id: String,
    /// Signed/profiled ICE endpoint policy.
    pub policy: IceEndpointPolicy,
    /// Honest UI label for this profile.
    pub label: String,
}

impl Clone for IceProfile {
    fn clone(&self) -> (r: Self)
        ensures
            r.same(self),
    {
        IceProfile { profile_id: self.profile_id.clone(), policy: self.policy.clone(), label: self.label.clone() }
    }
}

/// Validation failure of an ICE profile with these parts, if any.
pub open spec fn ice_profile_fault(id: Seq<char>, policy: IceEndpointPolicy, label: Seq<char>) -> Option<PolicyFault> {
    if profile_id_error(id) is Some {
        profile_id_error(id)
    } else if !is_clean_label(label) {
        conn("ICE profile label must be non-empty and trimmed"@)
    } else {
        match policy_error(policy.stun_servers@, policy.turn_servers@) {
            Some(m) => Some(PolicyFault::Ice(m)),
            None => None,
        }
    }
}

impl IceProfile {
    pub open spec fn same(&self, o: &Self) -> bool {
        self.profile_id == o.profile_id && self.policy.same(&o.policy) && self.label == o.label
    }

    pub open spec fn fault(&self) -> Option<PolicyFault> {
        ice_profile_fault(self.profile_id@, self.policy, self.label@)
    }

    /// Construct and validate an ICE profile.
    pub fn new(profile_id: &str, policy: IceEndpointPolicy, label: &str) -> (r: Result<Self, TransportError>)
        ensures
            reports(r, ice_profile_fault(profile_id@, policy, label@)),
            r matches Ok(p) ==> p.profile_id@ == profile_id@ && p.policy == policy && p.label@ == label@,
    {
        let profile = IceProfile { profile_id: String::from_str(profile_id), policy, label: String::from_str(label) };
        match profile.validate() {
            Err(e) => Err(e),
            Ok(()) => Ok(profile),
        }
    }

    /// Validate profile metadata and ICE endpoint policy.
    pub fn validate(&self) -> (r: Result<(), TransportError>)
        ensures
            reports(r, self.fault()),
    {
        match validate_profile_id(self.profile_id.as_str()) {
            Err(e) => return Err(e),
            Ok(()) => {},
        }
        if !clean_label(self.label.as_str()) {
            return Err(
                TransportError::InvalidConnectivityPolicy(text("ICE profile label must be non-empty and trimmed")),
            );
        }
        self.policy.validate()
    }
}

/// First failing adapter profile of a list, in order.
pub open spec fn first_adapter_fault(s: Seq<SignalingAdapterProfile>) -> Option<PolicyFault>
    decreases s.len(),
{
    if s.len() == 0 {
        None
    } else if s[0].fault() is Some {
        s[0].fault()
    } else {
        first_adapter_fault(s.drop_first())
    }
}

/// Scoped connectivity profile selected by app, DM, group, channel, or invite bootstrap.
#[derive(PartialEq, Eq)]
pub struct ConnectivityPolicy {
    /// Scope this policy applies to.
    pub scope: ConversationScope,
    /// Stable signaling profile id.
    pub signaling_profile_id: String,
    /// Ordered signaling adapters for this scope.
    pub signaling_adapters: Vec<SignalingAdapterProfile>,
    /// ICE profile id used independently of signaling.
    pub ice_profile_id: String,
    /// ICE profile snapshot for invite/bootstrap or persisted scope.
    pub ice_profile: IceProfile,
    /// Adapter fallback behavior.
    pub fallback_behavior: AdapterFallbackBehavior,
    /// UI/diagnostic trust label for the selected policy.
    pub trust_label: AdapterTrustLabel,
}

impl ConnectivityPolicy {
    /// Same content, comparing nested lists element by element.
    pub open spec fn same(&self, o: &Self) -> bool {
        &&& self.scope == o.scope
        &&& self.signaling_profile_id == o.signaling_profile_id
        &&& self.signaling_adapters@.len() == o.signaling_adapters@.len()
        &&& forall|i: int|
            0 <= i < self.signaling_adapters@.len() ==> (#[trigger] self.signaling_adapters@[i]).same(
                &o.signaling_adapters@[i],
            )
        &&& self.ice_profile_id == o.ice_profile_id
        &&& self.ice_profile.same(&o.ice_profile)
        &&& self.fallback_behavior == o.fallback_behavior
        &&& self.trust_label == o.trust_label
    }

    pub open spec fn fault(&self) -> Option<PolicyFault> {
        if self.scope.fault() is Some {
            self.scope.fault()
        } else if profile_id_error(self.signaling_profile_id@) is Some {
            profile_id_error(self.signaling_profile_id@)
        } else if profile_id_error(self.ice_profile_id@) is Some {
            profile_id_error(self.ice_profile_id@)
        } else if self.ice_profile.profile_id@ != self.ice_profile_id@ {
            conn("connectivity policy ice_profile_id must match embedded ICE profile"@)
        } else if self.signaling_adapters@.len() == 0 {
            conn("connectivity policy requires at least one signaling adapter"@)
        } else {
            first_adapter_fault(self.signaling_adapters@)
        }
    }

    /// Validate scope, profile ids, adapter order, and ICE policy.
    pub fn validate(&self) -> (r: Result<(), TransportError>)
        ensures
            reports(r, self.fault()),
    {
        match self.scope.validate() {
            Err(e) => return Err(e),
            Ok(()) => {},
        }
        match validate_profile_id(self.signaling_profile_id.as_str()) {
            Err(e) => return Err(e),
            Ok(()) => {},
        }
        match validate_profile_id(self.ice_profile_id.as_str()) {
            Err(e) => return Err(e),
            Ok(()) => {},
        }
        if !str_equal(self.ice_profile.profile_id.as_str(), self.ice_profile_id.as_str()) {
            return Err(
                TransportError::InvalidConnectivityPolicy(
                    text("connectivity policy ice_profile_id must match embedded ICE profile"),
                ),
            );
        }
        if self.signaling_adapters.len() == 0 {
            return Err(
                TransportError::InvalidConnectivityPolicy(
                    text("connectivity policy requires at least one signaling adapter"),
                ),
            );
        }
        let s = &self.signaling_adapters;
        let n = s.len();
        let mut i: usize = 0;
        assert(s@.skip(0) =~= s@);
        while i < n
            invariant
                n == s@.len(),
                i <= n,
                s@ == self.signaling_adapters@,
                self.scope.fault() is None,
                profile_id_error(self.signaling_profile_id@) is None,
                profile_id_error(self.ice_profile_id@) is None,
                self.ice_profile.profile_id@ == self.ice_profile_id@,
                self.signaling_adapters@.len() != 0,
                first_adapter_fault(s@) == first_adapter_fault(s@.skip(i as int)),
            decreases n - i,
        {
            assert(s@.skip(i as int)[0] == s@[i as int]);
            match s[i].validate() {
                Err(e) => return Err(e),
                Ok(()) => {},
            }
            assert(s@.skip(i as int).drop_first() =~= s@.skip(i + 1));
            i = i + 1;
        }
        assert(s@.skip(n as int) =~= Seq::<SignalingAdapterProfile>::empty());
        Ok(())
    }

    /// Return the ordered production adapter kinds configured for this scope.
    pub fn adapter_kinds(&self) -> (r: Vec<SignalingAdapterKind>)
        ensures
            r@ == self.signaling_adapters@.map_values(|a: SignalingAdapterProfile| a.kind),
    {
        let mut out: Vec<SignalingAdapterKind> = Vec::new();
        let n = self.signaling_adapters.len();
        let mut i: usize = 0;
        while i < n
            invariant
                n == self.signaling_adapters@.len(),
                i <= n,
                out@ == self.signaling_adapters@.take(i as int).map_values(|a: SignalingAdapterProfile| a.kind),
            decreases n - i,
        {
            out.push(self.signaling_adapters[i].kind);
            assert(self.signaling_adapters@.take(i + 1) =~= self.signaling_adapters@.take(i as int).push(self.signaling_adapters@[i as int]));
            assert(out@ =~= self.signaling_adapters@.take(i + 1).map_values(|a: SignalingAdapterProfile| a.kind));
            i = i + 1;
        }
        assert(self.signaling_adapters@.take(n as int) =~= self.signaling_adapters@);
        out
    }
}

proof fn lemma_same_adapters_fault(a: Seq<SignalingAdapterProfile>, b: Seq<SignalingAdapterProfile>)
    requires
        a.len() == b.len(),
        forall|i: int| 0 <= i < a.len() ==> (#[trigger] a[i]).same(&b[i]),
    ensures
        first_adapter_fault(a) == first_adapter_fault(b),
    decreases a.len(),
{
    if a.len() > 0 {
        assert(a[0].same(&b[0]));
        lemma_same_adapters_fault(a.drop_first(), b.drop_first());
    }
}

/// Policies with the same content fail or pass validation alike.
pub proof fn law_same_policy_same_fault(a: ConnectivityPolicy, b: ConnectivityPolicy)
    requires
        a.same(&b),
    ensures
        a.fault() == b.fault(),
{
    lemma_same_adapters_fault(a.signaling_adapters@, b.signaling_adapters@);
}

impl Clone for ConnectivityPolicy {
    fn clone(&self) -> (r: Self)
        ensures
            r.same(self),
    {
        let mut adapters: Vec<SignalingAdapterProfile> = Vec::new();
        let n = self.signaling_adapters.len();
        let mut i: usize = 0;
        while i < n
            invariant
                n == self.signaling_adapters@.len(),
                i <= n,
                adapters@.len() == i,
                forall|j: int| 0 <= j < i ==> (#[trigger] adapters@[j]).same(&self.signaling_adapters@[j]),
            decreases n - i,
        {
            adapters.push(self.signaling_adapters[i].clone());
            i = i + 1;
        }
        ConnectivityPolicy {
            scope: self.scope.clone(),
            signaling_profile_id: self.signaling_profile_id.clone(),
            signaling_adapters: adapters,
            ice_profile_id: self.ice_profile_id.clone(),
            ice_profile: self.ice_profile.clone(),
            fallback_behavior: self.fallback_behavior,
            trust_label: self.trust_label.clone(),
        }
    }
}

/// Policy source selected after applying precedence.
#[derive(Clone, Copy, Debug, PartialEq, Eq, Structural)]
pub enum ConnectivityPolicySource {
    /// Invite bootstrap snapshot wins for initial join/contact.
    InviteBootstrap,
    /// Channel-specific override.
    ChannelOverride,
    /// Group/server default.
    GroupDefault,
    /// DM-specific default/override.
    DmOverride,
    /// Global app default.
    AppDefault,
}

/// Resolved policy plus the source that won precedence.
pub struct EffectiveConnectivityPolicy {
    /// Winning source.
    pub source: ConnectivityPolicySource,
    /// Winning policy snapshot.
    pub policy: ConnectivityPolicy,
}

/// Persisted connectivity policies by scope.
pub struct ConnectivityPolicyStore {
    /// Global app default policy.
    pub app_default: ConnectivityPolicy,
    /// Per-DM policies keyed by committed DM scope id.
    pub dm_policies: KeyedList<ConnectivityPolicy>,
    /// Group defaults keyed by committed group scope id.
    pub group_policies: KeyedList<ConnectivityPolicy>,
    /// Channel overrides keyed by committed channel scope id.
    pub channel_policies: KeyedList<ConnectivityPolicy>,
}

/// `r` is `policy` (by content) from `source`, or the policy's validation error.
pub open spec fn chosen(
    r: Result<EffectiveConnectivityPolicy, TransportError>,
    source: ConnectivityPolicySource,
    policy: ConnectivityPolicy,
) -> bool {
    if policy.fault() is Some {
        reports(r, policy.fault())
    } else {
        r matches Ok(e) && e.source == source && e.policy.same(&policy)
    }
}

impl ConnectivityPolicyStore {
    pub open spec fn wf(&self) -> bool {
        self.dm_policies.wf() && self.group_policies.wf() && self.channel_policies.wf()
    }

    /// The policy precedence decides for `target`: invite bootstrap, channel
    /// override, the channel's parent group, group, DM, then the app default.
    pub open spec fn resolution(
        &self,
        target: ConversationScope,
        invite: Option<ConnectivityPolicy>,
        r: Result<EffectiveConnectivityPolicy, TransportError>,
    ) -> bool {
        let id = target.scope_id_commitment@;
        if self.app_default.fault() is Some {
            reports(r, self.app_default.fault())
        } else if target.fault() is Some {
            reports(r, target.fault())
        } else if invite is Some {
            chosen(r, ConnectivityPolicySource::InviteBootstrap, invite->0)
        } else if target.level is Channel && self.channel_policies.has(id) {
            chosen(r, ConnectivityPolicySource::ChannelOverride, self.channel_policies.at(id))
        } else if target.level is Channel && target.parent_view() is Some
            && self.group_policies.has(target.parent_view()->0) {
            chosen(
                r,
                ConnectivityPolicySource::GroupDefault,
                self.group_policies.at(target.parent_view()->0),
            )
        } else if target.level is Group && self.group_policies.has(id) {
            chosen(r, ConnectivityPolicySource::GroupDefault, self.group_policies.at(id))
        } else if target.level is Dm && self.dm_policies.has(id) {
            chosen(r, ConnectivityPolicySource::DmOverride, self.dm_policies.at(id))
        } else {
            r matches Ok(e) && e.source == ConnectivityPolicySource::AppDefault && e.policy.same(
                &self.app_default,
            )
        }
    }

    /// A valid group target with a group policy stored under its scope id and no
    /// invite bootstrap resolves to that group policy as the group default, or
    /// to that policy's validation error; never to the app default.
    pub proof fn law_group_target_resolves_to_group_policy(
        self,
        target: ConversationScope,
        r: Result<EffectiveConnectivityPolicy, TransportError>,
    )
        requires
            self.app_default.fault() is None,
            target.fault() is None,
            target.level is Group,
            self.group_policies.has(target.scope_id_commitment@),
            self.resolution(target, None, r),
        ensures
            r matches Ok(e) ==> e.source == ConnectivityPolicySource::GroupDefault && e.policy.same(
                &self.group_policies.at(target.scope_id_commitment@),
            ),
            r is Err <==> self.group_policies.at(target.scope_id_commitment@).fault() is Some,
    {
    }

    fn pick(policy: &ConnectivityPolicy, source: ConnectivityPolicySource) -> (r: Result<
        EffectiveConnectivityPolicy,
        TransportError,
    >)
        ensures
            chosen(r, source, *policy),
    {
        match policy.validate() {
            Err(e) => Err(e),
            Ok(()) => Ok(EffectiveConnectivityPolicy { source, policy: policy.clone() }),
        }
    }

    /// Resolve policy precedence for a target scope, optionally with an invite bootstrap snapshot.
    pub fn resolve(&self, target: &ConversationScope, invite_bootstrap: Option<&ConnectivityPolicy>) -> (r:
        Result<EffectiveConnectivityPolicy, TransportError>)
        requires
            self.wf(),
        ensures
            self.resolution(
                *target,
                match invite_bootstrap {
                    Some(p) => Some(*p),
                    None => None,
                },
                r,
            ),
    {
        match self.app_default.validate() {
            Err(e) => return Err(e),
            Ok(()) => {},
        }
        match target.validate() {
            Err(e) => return Err(e),
            Ok(()) => {},
        }
        match invite_bootstrap {
            Some(invite) => return Self::pick(invite, ConnectivityPolicySource::InviteBootstrap),
            None => {},
        }
        match target.level {
            ConnectivityScopeLevel::Channel => {
                match self.channel_policies.get(target.scope_id_commitment.as_str()) {
                    Some(policy) => return Self::pick(policy, ConnectivityPolicySource::ChannelOverride),
                    None => {},
                }
                match &target.parent_scope_commitment {
                    Some(parent) => match self.group_policies.get(parent.as_str()) {
                        Some(policy) => return Self::pick(policy, ConnectivityPolicySource::GroupDefault),
                        None => {},
                    },
                    None => {},
                }
            },
            ConnectivityScopeLevel::Group => {
                match self.group_policies.get(target.scope_id_commitment.as_str()) {
                    Some(policy) => return Self::pick(policy, ConnectivityPolicySource::GroupDefault),
                    None => {},
                }
            },
            ConnectivityScopeLevel::Dm => {
                match self.dm_policies.get(target.scope_id_commitment.as_str()) {
                    Some(policy) => return Self::pick(policy, ConnectivityPolicySource::DmOverride),
                    None => {},
                }
            },
            _ => {},
        }
        Ok(
            EffectiveConnectivityPolicy {
                source: ConnectivityPolicySource::AppDefault,
                policy: self.app_default.clone(),
            },
        )
    }
}

/// Bytes hashed into a scope commitment.
pub open spec fn scope_commitment_input(level: ConnectivityScopeLevel, secret: Seq<u8>, domain: Seq<char>) -> Seq<u8> {
    encode_utf8("discrypt-connectivity-scope-v1"@) + encode_utf8(level_label(level)) + encode_utf8(domain)
        + secret
}

/// Deterministically derive a committed scope id for tests, invites, and persisted policies.
pub fn derive_scope_commitment(level: ConnectivityScopeLevel, stable_scope_secret: &[u8], domain_separator: &str) -> (r: String)
    ensures
        r@ == lower_hex_spec(sha256_of(scope_commitment_input(level, stable_scope_secret@, domain_separator@))),
{
    let mut buf: Vec<u8> = Vec::new();
    push_str_bytes(&mut buf, "discrypt-connectivity-scope-v1");
    push_str_bytes(&mut buf, level_name(level));
    push_str_bytes(&mut buf, domain_separator);
    push_bytes(&mut buf, stable_scope_secret);
    assert(buf@ =~= scope_commitment_input(level, stable_scope_secret@, domain_separator@));
    let digest = sha256(buf.as_slice());
    lower_hex(&digest)
}

/// Bytes hashed into a rendezvous commitment under `domain`.
pub open spec fn rendezvous_input(
    domain: Seq<u8>,
    scope: ConversationScope,
    kind: SignalingAdapterKind,
    secret: Seq<u8>,
    entropy: Seq<u8>,
) -> Seq<u8> {
    domain + encode_utf8(level_label(scope.level)) + encode_utf8(scope.scope_id_commitment@) + (
    match scope.parent_scope_commitment {
        Some(p) => encode_utf8(p@),
        None => Seq::empty(),
    }) + encode_utf8(kind.name()) + secret + entropy
}

fn derive_hex(
    domain_separator: &[u8],
    scope: &ConversationScope,
    adapter_kind: SignalingAdapterKind,
    bootstrap_secret: &[u8],
    random_entropy: &[u8],
) -> (r: String)
    ensures
        r@ == lower_hex_spec(
            sha256_of(rendezvous_input(domain_separator@, *scope, adapter_kind, bootstrap_secret@, random_entropy@)),
        ),
{
    let mut buf: Vec<u8> = Vec::new();
    push_bytes(&mut buf, domain_separator);
    push_str_bytes(&mut buf, level_name(scope.level));
    push_str_bytes(&mut buf, scope.scope_id_commitment.as_str());
    match &scope.parent_scope_commitment {
        Some(parent) => push_str_bytes(&mut buf, parent.as_str()),
        None => {},
    }
    push_str_bytes(&mut buf, adapter_kind.canonical_name());
    push_bytes(&mut buf, bootstrap_secret);
    push_bytes(&mut buf, random_entropy);
    assert(buf@ =~= rendezvous_input(domain_separator@, *scope, adapter_kind, bootstrap_secret@, random_entropy@));
    let digest = sha256(buf.as_slice());
    lower_hex(&digest)
}

/// Adapter-facing rendezvous capability derived by policy code before adapter use.
pub struct RendezvousCapability {
    /// Scope commitment, not display name.
    pub scope: ConversationScope,
    /// Adapter kind this capability is valid for.
    pub adapter_kind: SignalingAdapterKind,
    /// Provider-visible derived topic/tag/room id.
    pub topic: String,
    /// Optional publish token commitment.
    pub publish_token_commitment: Option<String>,
    /// Optional subscribe token commitment.
    pub subscribe_token_commitment: Option<String>,
    /// Message/presence TTL in seconds.
    pub ttl_seconds: u32,
    /// Provider metadata posture.
    pub metadata_posture: ProviderMetadataPosture,
    /// Redacted trust label.
    pub trust_label: AdapterTrustLabel,
}

/// Commitment hex derived under a domain label.
pub open spec fn rendezvous_hex(
    domain: Seq<char>,
    scope: ConversationScope,
    kind: SignalingAdapterKind,
    secret: Seq<u8>,
    entropy: Seq<u8>,
) -> Seq<char> {
    lower_hex_spec(sha256_of(rendezvous_input(encode_utf8(domain), scope, kind, secret, entropy)))
}

impl RendezvousCapability {
    /// Derive adapter-facing topic and token commitments from bootstrap material.
    pub fn derive(
        scope: ConversationScope,
        adapter_kind: SignalingAdapterKind,
        bootstrap_secret: &[u8],
        random_entropy: &[u8],
        ttl_seconds: u32,
        metadata_posture: ProviderMetadataPosture,
        trust_label: AdapterTrustLabel,
    ) -> (r: Result<Self, TransportError>)
        ensures
            scope.fault() is Some ==> reports(r, scope.fault()),
            scope.fault() is None && (bootstrap_secret@.len() < 32 || random_entropy@.len() < 16)
                ==> refused_with(r, "rendezvous derivation requires a bootstrap secret and random entropy"@),
            scope.fault() is None && !(bootstrap_secret@.len() < 32 || random_entropy@.len() < 16)
                && (ttl_seconds == 0 || ttl_seconds > 86_400) ==> refused_with(
                r,
                "rendezvous TTL must be between 1 and 86400 seconds"@,
            ),
            scope.fault() is None && !(bootstrap_secret@.len() < 32 || random_entropy@.len() < 16)
                && !(ttl_seconds == 0 || ttl_seconds > 86_400) ==> (r matches Ok(c) && c.scope == scope
                && c.adapter_kind == adapter_kind && c.topic@ == "discrypt-rv1-"@ + adapter_kind.name()
                + "-"@ + rendezvous_hex(
                "discrypt-rendezvous-topic-v1"@,
                scope,
                adapter_kind,
                bootstrap_secret@,
                random_entropy@,
            ) && (c.publish_token_commitment matches Some(p) && p@ == rendezvous_hex(
                "discrypt-rendezvous-publish-token-v1"@,
                scope,
                adapter_kind,
                bootstrap_secret@,
                random_entropy@,
            )) && (c.subscribe_token_commitment matches Some(p) && p@ == rendezvous_hex(
                "discrypt-rendezvous-subscribe-token-v1"@,
                scope,
                adapter_kind,
                bootstrap_secret@,
                random_entropy@,
            )) && c.ttl_seconds == ttl_seconds && c.metadata_posture == metadata_posture
                && c.trust_label == trust_label),
    {
        match scope.validate() {
            Err(e) => return Err(e),
            Ok(()) => {},
        }
        if bootstrap_secret.len() < 32 || random_entropy.len() < 16 {
            return Err(
                TransportError::InvalidConnectivityPolicy(
                    text("rendezvous derivation requires a bootstrap secret and random entropy"),
                ),
            );
        }
        if ttl_seconds == 0 || ttl_seconds > 86_400 {
            return Err(
                TransportError::InvalidConnectivityPolicy(
                    text("rendezvous TTL must be between 1 and 86400 seconds"),
                ),
            );
        }
        let topic_commitment = derive_hex(
            "discrypt-rendezvous-topic-v1".as_bytes(),
            &scope,
            adapter_kind,
            bootstrap_secret,
            random_entropy,
        );
        let publish_token_commitment = derive_hex(
            "discrypt-rendezvous-publish-token-v1".as_bytes(),
            &scope,
            adapter_kind,
            bootstrap_secret,
            random_entropy,
        );
        let subscribe_token_commitment = derive_hex(
            "discrypt-rendezvous-subscribe-token-v1".as_bytes(),
            &scope,
            adapter_kind,
            bootstrap_secret,
            random_entropy,
        );
        let mut topic = text("discrypt-rv1-");
        topic.append(adapter_kind.canonical_name());
        topic.append("-");
        topic.append(topic_commitment.as_str());
        Ok(
            RendezvousCapability {
                scope,
                adapter_kind,
                topic,
                publish_token_commitment: Some(publish_token_commitment),
                subscribe_token_commitment: Some(subscribe_token_commitment),
                ttl_seconds,
                metadata_posture,
                trust_label,
            },
        )
    }
}

} // verus!
