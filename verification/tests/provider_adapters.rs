use discrypt::peer_overlay::SignalingPeerId;
use discrypt::policy::{
    derive_scope_commitment, AdapterTrustLabel, ConnectivityScopeLevel, ConversationScope,
    ProviderMetadataPosture, SignalingAdapterCapabilities, SignalingAdapterKind,
    SignalingAdapterProfile, SignalingEndpointSecurity, SignalingProviderEndpoint,
};
use discrypt::provider_adapters::{
    adapter_boundary_for_kind, local_connect_check, local_conformance_health,
    local_conformance_observability, local_join_check, required_provider_adapter_boundaries,
    FeatureGatedProviderAdapter, FeatureGatedProviderRoom, FeatureGatedProviderSession,
    LocalConformanceBusState, OpaqueSignalingPayload, ProviderAdapterReadiness,
    SealedWebRtcNegotiationPayload, SignalingHealthState,
};
use discrypt::transport::{Endpoint, TransportError};

const KINDS: [SignalingAdapterKind; 4] = [
    SignalingAdapterKind::Mqtt,
    SignalingAdapterKind::Nostr,
    SignalingAdapterKind::IpfsPubsub,
    SignalingAdapterKind::DiscryptQuicRendezvous,
];

fn valid_endpoint(kind: SignalingAdapterKind) -> &'static str {
    match kind {
        SignalingAdapterKind::Mqtt => "wss://mqtt.example.invalid",
        SignalingAdapterKind::Nostr => "wss://nostr.example.invalid",
        SignalingAdapterKind::IpfsPubsub => "/dns/bootstrap.example.invalid/tcp/4001/p2p/12D3KooWBootstrap",
        SignalingAdapterKind::DiscryptQuicRendezvous => "quic://signal.example.invalid",
    }
}

fn local_endpoint(kind: SignalingAdapterKind) -> &'static str {
    match kind {
        SignalingAdapterKind::Mqtt => "mqtt://127.0.0.1:1883",
        SignalingAdapterKind::Nostr => "ws://127.0.0.1:8080",
        SignalingAdapterKind::IpfsPubsub => "http://127.0.0.1:5001",
        SignalingAdapterKind::DiscryptQuicRendezvous => "http://127.0.0.1:9443",
    }
}

fn profile(
    kind: SignalingAdapterKind,
    endpoint: &str,
    security: SignalingEndpointSecurity,
    posture: &str,
) -> Result<SignalingAdapterProfile, TransportError> {
    Ok(SignalingAdapterProfile {
        profile_id: format!("profile-{}", kind.canonical_name()),
        kind,
        endpoints: vec![SignalingProviderEndpoint::new(
            Endpoint(endpoint.to_owned()),
            security,
        )],
        metadata_posture: ProviderMetadataPosture::HashedTopic,
        capabilities: SignalingAdapterCapabilities::production_required(),
        trust_label: AdapterTrustLabel::new(kind.canonical_name(), posture)?,
    })
}

fn valid_profile(kind: SignalingAdapterKind) -> Result<SignalingAdapterProfile, TransportError> {
    profile(kind, valid_endpoint(kind), SignalingEndpointSecurity::ProductionTls, "redacted boundary")
}

fn local_profile(kind: SignalingAdapterKind) -> Result<SignalingAdapterProfile, TransportError> {
    profile(kind, local_endpoint(kind), SignalingEndpointSecurity::LocalDevLoopback, "local conformance")
}

fn dm_scope(secret: &[u8]) -> Result<ConversationScope, TransportError> {
    ConversationScope::new(
        ConnectivityScopeLevel::Dm,
        &derive_scope_commitment(ConnectivityScopeLevel::Dm, secret, "local conformance"),
    )
}

fn assert_no_forbidden_text(text: &str) {
    let lower = text.to_ascii_lowercase();
    for marker in ["alice display", "bob display", "family voice", "v=0", "a=ice-ufrag", "candidate:"] {
        assert!(!lower.contains(marker), "provider-visible text leaked {marker}");
    }
}

#[test]
fn provider_boundaries_fail_closed_without_real_clients() -> Result<(), TransportError> {
    let boundaries = required_provider_adapter_boundaries();
    for (boundary, kind) in boundaries.iter().zip(KINDS) {
        assert_eq!(boundary.kind, kind);
        assert_eq!(boundary.readiness, ProviderAdapterReadiness::FeatureDisabled);
        assert!(!boundary.implementation_available());
        assert_eq!(boundary.failure_class(), "feature_disabled");

        let adapter = FeatureGatedProviderAdapter::new(kind);
        assert_eq!(adapter.boundary().cargo_feature, boundary.cargo_feature);
        let observability = adapter.observability_redacted();
        assert_eq!(observability.adapter_kind, kind);
        assert_eq!(observability.health, SignalingHealthState::ProviderUnhealthy);
        assert_eq!(
            observability.endpoint_label,
            format!("{}#not_connected", kind.canonical_name())
        );
        assert_eq!(
            observability.trust_label.posture,
            format!("{}; feature_disabled", boundary.cargo_feature)
        );
        assert!(!observability.endpoint_label.contains("example.invalid"));

        let error = adapter.connect_refusal(&valid_profile(kind)?);
        assert!(matches!(error, TransportError::SignalingAdapter(_)), "{kind:?}: {}", error.message());
        let message = error.message();
        assert!(message.contains(kind.canonical_name()));
        assert!(message.contains(boundary.cargo_feature));
    }
    Ok(())
}

#[test]
fn provider_boundary_refuses_profile_of_another_kind() -> Result<(), TransportError> {
    let adapter = FeatureGatedProviderAdapter::new(SignalingAdapterKind::Mqtt);
    assert!(matches!(
        adapter.connect_refusal(&valid_profile(SignalingAdapterKind::Nostr)?),
        TransportError::InvalidConnectivityPolicy(_)
    ));
    Ok(())
}

#[test]
fn feature_gated_session_reports_unhealthy_and_refuses() {
    let boundary = adapter_boundary_for_kind(SignalingAdapterKind::Mqtt);
    let session = FeatureGatedProviderSession::new(boundary);
    let health = session.health();
    assert_eq!(health.adapter_kind, SignalingAdapterKind::Mqtt);
    assert_eq!(health.state, SignalingHealthState::ProviderUnhealthy);
    assert_eq!(health.latency_bucket, "not_connected");
    assert_eq!(health.failure_class, Some(boundary.failure_class().to_owned()));
    assert!(matches!(session.refusal(), TransportError::SignalingAdapter(_)));
    let room = FeatureGatedProviderRoom::new(boundary);
    assert!(matches!(room.refusal(), TransportError::SignalingAdapter(_)));
}

#[test]
fn local_conformance_checks_profile_and_scope() -> Result<(), TransportError> {
    let kind = SignalingAdapterKind::Nostr;
    assert!(local_connect_check(kind, &local_profile(kind)?).is_ok());
    assert!(matches!(
        local_connect_check(kind, &valid_profile(kind)?),
        Err(TransportError::InvalidConnectivityPolicy(_))
    ));
    assert!(matches!(
        local_connect_check(kind, &local_profile(SignalingAdapterKind::Mqtt)?),
        Err(TransportError::InvalidConnectivityPolicy(_))
    ));
    let scope = dm_scope(b"scope one")?;
    let other = dm_scope(b"scope two")?;
    assert!(local_join_check(kind, &scope, &scope, kind).is_ok());
    assert!(matches!(
        local_join_check(kind, &scope, &other, kind),
        Err(TransportError::SignalingAdapter(_))
    ));
    assert!(matches!(
        local_join_check(kind, &scope, &scope, SignalingAdapterKind::Mqtt),
        Err(TransportError::InvalidConnectivityPolicy(_))
    ));
    Ok(())
}

#[test]
fn local_conformance_bus_delivers_opaque_payloads_without_plaintext() -> Result<(), TransportError> {
    for kind in KINDS {
        let mut bus = LocalConformanceBusState::new();
        let topic = "hashed-topic";
        let alice = SignalingPeerId::new("alice-device")?;
        let bob = SignalingPeerId::new("bob-device")?;
        bus.ensure_room(kind, topic);

        bus.publish_presence(kind, topic, &alice, OpaqueSignalingPayload { bytes: b"sealed-presence-alice".to_vec() }, 120)?;
        bus.publish_presence(kind, topic, &bob, OpaqueSignalingPayload { bytes: b"sealed-presence-bob".to_vec() }, 120)?;
        let presence = bus.subscribe_presence(kind, topic);
        assert!(presence.iter().any(|event| event.peer_id == alice));
        assert!(presence.iter().any(|event| event.peer_id == bob));

        let offer = SealedWebRtcNegotiationPayload { ciphertext: b"sealed-offer".to_vec() };
        bus.send_signal(kind, topic, &alice, bob.clone(), offer.clone())?;
        let bob_signals = bus.take_signals(kind, topic, &bob);
        assert_eq!(bob_signals.len(), 1);
        assert_eq!(bob_signals[0].from_peer, alice);
        assert_eq!(bob_signals[0].payload, offer);
        assert!(bus.take_signals(kind, topic, &bob).is_empty());

        bus.broadcast_control(kind, topic, &alice, OpaqueSignalingPayload { bytes: b"sealed-control-alice".to_vec() })?;
        let bob_controls = bus.take_control_payloads(kind, topic, &bob);
        assert_eq!(bob_controls.len(), 1);
        assert_eq!(bob_controls[0].from_peer, alice);
        assert_eq!(bob_controls[0].payload.bytes, b"sealed-control-alice");

        for bytes in bus.relay_visible_material() {
            if let Ok(text) = std::str::from_utf8(&bytes) {
                assert_no_forbidden_text(text);
            }
        }
        let observability = format!(
            "{:?}{:?}",
            local_conformance_observability(kind),
            local_conformance_health(kind)
        );
        assert_no_forbidden_text(&observability);
    }
    Ok(())
}

#[test]
fn local_conformance_bus_rejects_plaintext_sdp_and_ice_markers() -> Result<(), TransportError> {
    let kind = SignalingAdapterKind::Mqtt;
    let mut bus = LocalConformanceBusState::new();
    let alice = SignalingPeerId::new("alice-device")?;
    assert!(matches!(
        bus.publish_presence(kind, "t", &alice, OpaqueSignalingPayload { bytes: b"Alice Display".to_vec() }, 120),
        Err(TransportError::PlaintextLeak)
    ));
    assert!(matches!(
        bus.send_signal(
            kind,
            "t",
            &alice,
            SignalingPeerId::new("bob-device")?,
            SealedWebRtcNegotiationPayload { ciphertext: b"v=0\r\na=ice-ufrag:raw\r\ncandidate:raw".to_vec() },
        ),
        Err(TransportError::PlaintextLeak)
    ));
    assert!(matches!(
        bus.broadcast_control(kind, "t", &alice, OpaqueSignalingPayload { bytes: b"raw sdp control".to_vec() }),
        Err(TransportError::PlaintextLeak)
    ));
    Ok(())
}

#[test]
fn local_conformance_observability_is_healthy_and_redacted() {
    let observability = local_conformance_observability(SignalingAdapterKind::IpfsPubsub);
    assert_eq!(observability.endpoint_label, "local-conformance:ipfs_pubsub#redacted");
    assert_eq!(observability.health, SignalingHealthState::Healthy);
    assert_eq!(observability.trust_label.label, "ipfs_pubsub");
    assert_eq!(observability.trust_label.posture, "deterministic local conformance only");
    let health = local_conformance_health(SignalingAdapterKind::IpfsPubsub);
    assert_eq!(health.latency_bucket, "local");
    assert_eq!(health.failure_class, None);
}
