use std::time::Duration;

use discrypt::keyed::KeyedList;
use discrypt::peer_overlay::{
    PeerOverlayAckId, PeerOverlayAckMode, PeerOverlayAdmittedSet, PeerOverlayAuth,
    PeerOverlayCarrier, PeerOverlayDelivery, PeerOverlayFrame, PeerOverlayLoopId,
    PeerOverlayOpaquePayload, PeerOverlayPayloadKind, PeerOverlayPeerRef, PeerOverlayRedelivery,
    PeerOverlayRoute, PeerOverlayTtl, SignalingPeerId,
};
use discrypt::policy::{derive_scope_commitment, ConnectivityScopeLevel, ConversationScope};
use discrypt::route_graph::{
    GroupRouteGraph, RouteGraphScope, RouteIntent, ROUTE_GRAPH_SCHEMA_VERSION,
};
use discrypt::session::TransportRoute;
use discrypt::signaling::{
    AdapterHealth, AdapterScope, ConnectivityPolicy, IceProfile, RendezvousCapability,
    SignalingAdapterKind, SignalingAdapterProfile, SignalingProviderEndpoint,
};
use discrypt::transport::{
    ConnectivityConfig, Endpoint, FallbackLeg, RouteReport, TransportError,
};
use sha2::{Digest, Sha256};

fn fingerprint(seed: &str) -> String {
    hex::encode(Sha256::digest(seed.as_bytes()))
}

fn profile(kind: SignalingAdapterKind) -> SignalingAdapterProfile {
    let endpoint = match kind {
        SignalingAdapterKind::Mqtt => "wss://mqtt.example.invalid/mqtt",
        SignalingAdapterKind::Nostr => "wss://nostr.example.invalid",
        SignalingAdapterKind::IpfsPubsub => "libp2p://12D3KooWBootstrapPeer",
        SignalingAdapterKind::DiscryptQuicRendezvous => "quic://signal.example.invalid:443",
    };
    SignalingAdapterProfile::new(
        kind.as_str(),
        kind,
        vec![SignalingProviderEndpoint::new(kind, endpoint, &fingerprint(endpoint)).unwrap()],
        Duration::from_secs(60),
        "provider sees random topic and timing only",
    )
    .unwrap()
}

#[test]
fn default_ice_profile_uses_public_stun_and_no_turn() {
    let profile = IceProfile::default();
    assert_eq!(
        profile.stun_servers,
        vec![Endpoint::new("stun:stun.l.google.com:19302")]
    );
    assert!(profile.turn_servers.is_empty());
    assert_eq!(profile.turn_status_copy(), "TURN not configured");
}

#[test]
fn policy_selects_first_healthy_adapter_by_scope() {
    let policy = ConnectivityPolicy::new(
        AdapterScope::Dm {
            dm_id: "dm-a".to_owned(),
        },
        vec![
            profile(SignalingAdapterKind::Mqtt),
            profile(SignalingAdapterKind::Nostr),
        ],
        IceProfile::default(),
    )
    .unwrap();
    let mut health = KeyedList::new();
    health.upsert("mqtt".to_owned(), AdapterHealth::BackingOff);
    let selected = policy.select(&health).unwrap();
    assert_eq!(selected.profile.kind, SignalingAdapterKind::Nostr);
}

#[test]
fn policy_selects_first_adapter_when_all_are_healthy() {
    let policy = ConnectivityPolicy::new(
        AdapterScope::AppDefault,
        vec![
            profile(SignalingAdapterKind::Mqtt),
            profile(SignalingAdapterKind::Nostr),
        ],
        IceProfile::default(),
    )
    .unwrap();
    let health = KeyedList::new();
    let selected = policy.select(&health).unwrap();
    assert_eq!(selected.profile.kind, SignalingAdapterKind::Mqtt);
}

#[test]
fn policy_without_profiles_is_refused() {
    assert!(ConnectivityPolicy::new(AdapterScope::AppDefault, vec![], IceProfile::default()).is_err());
}

#[test]
fn every_required_adapter_has_distinct_valid_endpoint_policy() {
    for kind in [
        SignalingAdapterKind::Mqtt,
        SignalingAdapterKind::Nostr,
        SignalingAdapterKind::IpfsPubsub,
        SignalingAdapterKind::DiscryptQuicRendezvous,
    ] {
        let profile = profile(kind);
        assert_eq!(profile.kind, kind);
        assert!(profile.validate().is_ok());
    }
}

#[test]
fn endpoint_with_foreign_scheme_is_refused() {
    let endpoint = "quic://signal.example.invalid:443";
    assert!(SignalingProviderEndpoint::new(
        SignalingAdapterKind::Mqtt,
        endpoint,
        &fingerprint(endpoint)
    )
    .is_err());
}

#[test]
fn rendezvous_capability_hides_scope_names_and_differs_per_scope() {
    let dm = AdapterScope::Dm {
        dm_id: "alice-bob".to_owned(),
    };
    let group = AdapterScope::Group {
        group_id: "private-lab".to_owned(),
    };
    let dm_cap = RendezvousCapability::derive(SignalingAdapterKind::Mqtt, &dm, b"secret");
    let group_cap = RendezvousCapability::derive(SignalingAdapterKind::Mqtt, &group, b"secret");
    assert_ne!(dm_cap.topic_commitment, group_cap.topic_commitment);
    assert!(!dm_cap.topic_commitment.contains("alice"));
    assert!(!group_cap.topic_commitment.contains("private"));
}

#[test]
fn rendezvous_capability_differs_per_adapter_and_secret() {
    let dm = AdapterScope::Dm {
        dm_id: "alice-bob".to_owned(),
    };
    let mqtt = RendezvousCapability::derive(SignalingAdapterKind::Mqtt, &dm, b"secret");
    let nostr = RendezvousCapability::derive(SignalingAdapterKind::Nostr, &dm, b"secret");
    let other = RendezvousCapability::derive(SignalingAdapterKind::Mqtt, &dm, b"other");
    assert_ne!(mqtt.topic_commitment, nostr.topic_commitment);
    assert_ne!(mqtt.topic_commitment, other.topic_commitment);
    assert_eq!(mqtt.topic_commitment.len(), 64);
}

fn peer(index: u8, epoch: u64) -> Result<PeerOverlayPeerRef, TransportError> {
    Ok(PeerOverlayPeerRef::new(
        SignalingPeerId::new(&format!("peer-{index}"))?,
        &format!("member-{index}"),
        &format!("device-{index}"),
        epoch,
    ))
}

fn admitted(epoch: u64) -> Result<PeerOverlayAdmittedSet, TransportError> {
    PeerOverlayAdmittedSet::new(
        epoch,
        vec![peer(1, epoch)?, peer(2, epoch)?, peer(3, epoch)?],
        vec![],
    )
}

fn nonzero_32(byte: u8) -> [u8; 32] {
    [byte; 32]
}

fn frame(epoch: u64) -> Result<PeerOverlayFrame, TransportError> {
    let route = PeerOverlayRoute {
        source: peer(1, epoch)?,
        relay_path: vec![peer(2, epoch)?],
        destination: peer(3, epoch)?,
        ttl: PeerOverlayTtl {
            remaining_hops: 2,
            created_at_ms: 1_000,
            expires_at_ms: 2_000,
        },
        loop_id: PeerOverlayLoopId([7; 16]),
    };
    let auth = PeerOverlayAuth {
        group_id_commitment: nonzero_32(1),
        epoch,
        sender_leaf_index: 5,
        confirmation_tag_commitment: nonzero_32(2),
        frame_auth_tag: vec![3; 16],
    };
    let delivery = PeerOverlayDelivery {
        ack_id: PeerOverlayAckId([4; 16]),
        ack_mode: PeerOverlayAckMode::AckRequired,
        redelivery: PeerOverlayRedelivery {
            max_attempts: 3,
            max_relay_fanout: 2,
            deadline_ms: 1_800,
        },
    };
    let payload = PeerOverlayOpaquePayload {
        kind: PeerOverlayPayloadKind::TextControl,
        key_id: b"kid-text".to_vec(),
        sequence: 42,
        aad_commitment: nonzero_32(5),
        opaque_ciphertext: b"DCF1:sealed-ciphertext-only".to_vec(),
    };
    Ok(PeerOverlayFrame::new(
        PeerOverlayCarrier::PeerAssistedOverlay,
        route,
        auth,
        delivery,
        payload,
    ))
}

#[test]
fn validates_current_epoch_admitted_opaque_frame() -> Result<(), TransportError> {
    let admitted = admitted(9)?;
    let frame = frame(9)?;

    frame.validate(&admitted)?;
    assert!(!frame
        .payload
        .relay_visible_bytes()
        .windows(b"plaintext message".len())
        .any(|window| window == b"plaintext message"));
    Ok(())
}

#[test]
fn rejects_provider_application_relay_carrier() -> Result<(), TransportError> {
    let admitted = admitted(9)?;
    let mut frame = frame(9)?;
    frame.carrier = PeerOverlayCarrier::ProviderApplicationRelay;

    assert!(frame.validate(&admitted).is_err());
    Ok(())
}

#[test]
fn rejects_stale_epoch_and_revoked_peer_refs() -> Result<(), TransportError> {
    let admitted = admitted(9)?;
    let stale = frame(8)?;
    assert!(stale.validate(&admitted).is_err());

    let revoked_set = PeerOverlayAdmittedSet::new(
        9,
        vec![peer(1, 9)?, peer(3, 9)?],
        vec![SignalingPeerId::new("peer-2")?],
    )?;
    assert!(frame(9)?.validate(&revoked_set).is_err());
    Ok(())
}

#[test]
fn rejects_looping_relay_path_and_bad_ttl() -> Result<(), TransportError> {
    let admitted = admitted(9)?;
    let mut looping = frame(9)?;
    looping.route.relay_path = vec![peer(2, 9)?, peer(2, 9)?];
    assert!(looping.validate(&admitted).is_err());

    let mut expired = frame(9)?;
    expired.route.ttl.expires_at_ms = expired.route.ttl.created_at_ms;
    assert!(expired.validate(&admitted).is_err());
    Ok(())
}

#[test]
fn validates_ack_and_redelivery_bounds() -> Result<(), TransportError> {
    let admitted = admitted(9)?;
    let mut no_ack = frame(9)?;
    no_ack.delivery.ack_id = PeerOverlayAckId([0; 16]);
    assert!(no_ack.validate(&admitted).is_err());

    let mut deadline_after_ttl = frame(9)?;
    deadline_after_ttl.delivery.redelivery.deadline_ms = 2_001;
    assert!(deadline_after_ttl.validate(&admitted).is_err());
    Ok(())
}

#[test]
fn relay_visible_bytes_carry_the_ciphertext() -> Result<(), TransportError> {
    let frame = frame(9)?;
    let visible = frame.payload.relay_visible_bytes();
    assert!(visible
        .windows(b"DCF1:sealed-ciphertext-only".len())
        .any(|window| window == b"DCF1:sealed-ciphertext-only"));
    Ok(())
}

#[test]
fn empty_peer_id_is_refused() {
    assert!(SignalingPeerId::new("").is_err());
    assert_eq!(SignalingPeerId::new("peer-1").unwrap().as_str(), "peer-1");
}

fn scope() -> Result<RouteGraphScope, TransportError> {
    let group = ConversationScope::new(
        ConnectivityScopeLevel::Group,
        &derive_scope_commitment(
            ConnectivityScopeLevel::Group,
            b"per60 group",
            "route-graph-test",
        ),
    )?;
    let channel = ConversationScope::new(
        ConnectivityScopeLevel::Channel,
        &derive_scope_commitment(
            ConnectivityScopeLevel::Channel,
            b"per60 channel",
            "route-graph-test",
        ),
    )?
    .with_parent_scope_commitment(&group.scope_id_commitment.clone())?;
    RouteGraphScope::new(group, channel)
}

fn node(index: usize) -> Result<SignalingPeerId, TransportError> {
    SignalingPeerId::new(&format!("peer-{index:02}"))
}

fn remotes(count: usize) -> Result<Vec<SignalingPeerId>, TransportError> {
    (1..count).map(node).collect()
}

fn route_report(selected: FallbackLeg) -> RouteReport {
    let attempted_legs = match selected {
        FallbackLeg::Stun => vec![FallbackLeg::Stun],
        FallbackLeg::Turn => vec![FallbackLeg::Stun, FallbackLeg::Turn],
        FallbackLeg::RelayOverlay => vec![FallbackLeg::RelayOverlay],
    };
    RouteReport {
        selected,
        endpoint: Endpoint::new(match selected {
            FallbackLeg::Stun => "stun:direct.example:3478",
            FallbackLeg::Turn => "turns:relay.example:5349",
            FallbackLeg::RelayOverlay => "overlay:unsupported",
        }),
        attempted_legs,
        ciphertext_only_relay_legs: selected != FallbackLeg::RelayOverlay,
        limitation: "deterministic local-process route graph unit proof".to_owned(),
    }
}

#[test]
fn builds_three_member_route_graph_edges_for_each_admitted_remote() -> Result<(), TransportError> {
    let graph = GroupRouteGraph::new(
        scope()?,
        node(0)?,
        remotes(3)?,
        RouteIntent::pending("awaiting per-peer negotiation")?,
    )?;

    assert_eq!(graph.edge_count(), 2);
    assert_eq!(graph.schema_version, ROUTE_GRAPH_SCHEMA_VERSION);
    for remote in remotes(3)? {
        let edge = graph.edge_for(&remote).expect("remote edge");
        assert_eq!(edge.local_peer_id, node(0)?);
        assert_eq!(edge.remote_peer_id, remote);
        assert!(!edge.intent.is_connectable());
    }
    graph.validate()?;
    Ok(())
}

#[test]
fn builds_eight_member_route_graph_with_direct_and_turn_intents() -> Result<(), TransportError> {
    let mut graph = GroupRouteGraph::new(
        scope()?,
        node(0)?,
        remotes(8)?,
        RouteIntent::pending("awaiting per-peer negotiation")?,
    )?;

    graph.set_intent(
        &node(1)?,
        RouteIntent::direct_webrtc(Some(route_report(FallbackLeg::Stun)))?,
    )?;
    graph.set_intent(
        &node(2)?,
        RouteIntent::configured_turn_webrtc(
            Endpoint::new("turns:relay.example:5349"),
            Some(route_report(FallbackLeg::Turn)),
        )?,
    )?;

    assert_eq!(graph.edge_count(), 7);
    assert_eq!(
        graph
            .edge_for(&node(1)?)
            .and_then(|edge| edge.intent.transport_route()),
        Some(TransportRoute::Direct)
    );
    assert_eq!(
        graph
            .edge_for(&node(2)?)
            .and_then(|edge| edge.intent.transport_route()),
        Some(TransportRoute::TurnRelay)
    );
    assert_eq!(
        graph
            .edge_for(&node(3)?)
            .and_then(|edge| edge.intent.transport_route()),
        None
    );
    graph.validate()?;
    Ok(())
}

#[test]
fn builds_sixteen_member_route_graph_with_unavailable_fail_closed_edges(
) -> Result<(), TransportError> {
    let mut graph = GroupRouteGraph::new(
        scope()?,
        node(0)?,
        remotes(16)?,
        RouteIntent::pending("awaiting per-peer negotiation")?,
    )?;
    graph.set_intent(
        &node(15)?,
        RouteIntent::unavailable("direct failed and configured TURN is missing")?,
    )?;

    assert_eq!(graph.edge_count(), 15);
    assert_eq!(
        graph
            .edge_for(&node(15)?)
            .and_then(|edge| edge.intent.transport_route()),
        None
    );
    graph.validate()?;
    Ok(())
}

#[test]
fn rejects_unadmitted_duplicate_local_and_unconfigured_turn_edges() -> Result<(), TransportError> {
    let duplicate = GroupRouteGraph::new(
        scope()?,
        node(0)?,
        vec![node(1)?, node(1)?],
        RouteIntent::pending("awaiting per-peer negotiation")?,
    );
    assert!(duplicate.is_err());

    let local_remote = GroupRouteGraph::new(
        scope()?,
        node(0)?,
        vec![node(0)?],
        RouteIntent::pending("awaiting per-peer negotiation")?,
    );
    assert!(local_remote.is_err());

    let unconfigured_turn = RouteIntent::configured_turn_webrtc(
        Endpoint::new(ConnectivityConfig::UNCONFIGURED_TURN_ENDPOINT),
        None,
    );
    assert!(unconfigured_turn.is_err());
    Ok(())
}

#[test]
fn rejects_provider_or_overlay_route_report_as_application_route() -> Result<(), TransportError> {
    let overlay = RouteIntent::direct_webrtc(Some(route_report(FallbackLeg::RelayOverlay)));
    assert!(overlay.is_err());

    let mismatched_turn = RouteIntent::configured_turn_webrtc(
        Endpoint::new("turns:relay.example:5349"),
        Some(route_report(FallbackLeg::Stun)),
    );
    assert!(mismatched_turn.is_err());
    Ok(())
}

#[test]
fn set_intent_for_unknown_remote_is_refused() -> Result<(), TransportError> {
    let mut graph = GroupRouteGraph::new(
        scope()?,
        node(0)?,
        remotes(3)?,
        RouteIntent::pending("awaiting per-peer negotiation")?,
    )?;
    assert!(graph
        .set_intent(&node(9)?, RouteIntent::unavailable("gone")?)
        .is_err());
    assert_eq!(graph.edge_count(), 2);
    Ok(())
}

#[test]
fn two_person_graph_has_one_edge() -> Result<(), TransportError> {
    let graph = GroupRouteGraph::two_person(
        scope()?,
        node(0)?,
        node(1)?,
        RouteIntent::direct_webrtc(Some(route_report(FallbackLeg::Stun)))?,
    )?;
    assert_eq!(graph.edge_count(), 1);
    assert_eq!(
        graph
            .edge_for(&node(1)?)
            .and_then(|edge| edge.intent.transport_route()),
        Some(TransportRoute::Direct)
    );
    graph.validate()?;
    Ok(())
}

#[test]
fn admitted_set_keeps_each_member_device_binding() -> Result<(), TransportError> {
    let set = admitted(9)?;
    for index in 1..=3 {
        assert!(set.validate_ref(&peer(index, 9)?).is_ok());
    }
    let rebound = PeerOverlayPeerRef::new(SignalingPeerId::new("peer-2")?, "member-2", "device-3", 9);
    assert!(set.validate_ref(&rebound).is_err());
    let other_member = PeerOverlayPeerRef::new(SignalingPeerId::new("peer-2")?, "member-1", "device-2", 9);
    assert!(set.validate_ref(&other_member).is_err());
    Ok(())
}
