use discrypt::ice::{IceEndpointPolicy, TurnServerConfig};
use discrypt::keyed::KeyedList;
use discrypt::policy::{
    derive_scope_commitment, AdapterFallbackBehavior, AdapterTrustLabel, ConnectivityPolicy,
    ConnectivityPolicySource, ConnectivityPolicyStore, ConnectivityScopeLevel, ConversationScope,
    IceProfile,
    ProviderMetadataPosture, RendezvousCapability, SignalingAdapterCapabilities,
    SignalingAdapterKind, SignalingAdapterProfile, SignalingEndpointSecurity,
    SignalingProviderEndpoint,
};
use discrypt::session::{
    ReconnectBackoffPolicy, ReconnectDecision, TransportRoute, TransportSession,
    TransportSessionError, TransportSessionEvent, TransportSessionState,
};
use discrypt::transport::{
    ConnectivityConfig, ConnectivityPlanner, Endpoint, EndpointOverrides, FallbackLeg,
    LocalProcessConformance, LocalProcessSocketAdapter, SimulatedNat, TransportError,
};

#[test]
fn fallback_uses_direct_then_configured_turn_order() {
    let config = ConnectivityConfig::default();
    let turn_config = ConnectivityConfig {
        overrides: EndpointOverrides::new(None, Some(Endpoint::new("turns:relay.example:5349"))),
        ..ConnectivityConfig::default()
    };
    let direct = ConnectivityPlanner::plan(&config, SimulatedNat::direct()).unwrap();
    let overlay = ConnectivityPlanner::plan(&config, SimulatedNat::overlay_only());
    let turn = ConnectivityPlanner::plan(&turn_config, SimulatedNat::turn_only()).unwrap();

    assert_eq!(direct.selected, FallbackLeg::Stun);
    assert_eq!(overlay, Err(TransportError::NoViablePath));
    assert_eq!(turn.selected, FallbackLeg::Turn);
    assert_eq!(turn.attempts.len(), 2);
    assert!(direct.ordered_direct_turn());
    assert!(turn.ordered_direct_turn());
    assert!(turn.relay_legs_ciphertext_only());
}

#[test]
fn owner_overrides_stun_and_turn_endpoints() {
    let config = ConnectivityConfig {
        overrides: EndpointOverrides::new(
            Some(Endpoint::new("stun:owner.example:3478")),
            Some(Endpoint::new("turns:owner.example:5349")),
        ),
        ..ConnectivityConfig::default()
    };
    let stun = ConnectivityPlanner::plan(&config, SimulatedNat::direct()).unwrap();
    let turn = ConnectivityPlanner::plan(&config, SimulatedNat::turn_only()).unwrap();

    assert_eq!(stun.endpoint, Endpoint::new("stun:owner.example:3478"));
    assert_eq!(turn.endpoint, Endpoint::new("turns:owner.example:5349"));
}

#[test]
fn turn_only_without_configured_relay_fails_closed() {
    let plan = ConnectivityPlanner::plan(&ConnectivityConfig::default(), SimulatedNat::turn_only());

    assert_eq!(plan, Err(TransportError::NoViablePath));
    assert!(!ConnectivityConfig::default().turn_relay_configured());
}

#[test]
fn route_report_is_honest_about_local_process_limitations() {
    let config = ConnectivityConfig::default();
    let report = ConnectivityPlanner::plan(&config, SimulatedNat::direct())
        .unwrap()
        .route_report();
    assert_eq!(report.selected, FallbackLeg::Stun);
    assert!(report.honest_and_ordered());
    assert!(report.limitation.contains("not a production NAT/pcap proof"));
}

#[test]
fn conformance_preparation_rejects_leaks_and_reports_delivery() {
    let adapter = LocalProcessSocketAdapter::new(
        ConnectivityConfig::default(),
        SimulatedNat::direct(),
        b"hello plaintext".to_vec(),
    );
    assert_eq!(
        adapter.prepare_conformance(b"").err(),
        Some(TransportError::Unavailable("empty ciphertext".to_owned()))
    );
    assert_eq!(
        adapter.prepare_conformance(b"xx hello plaintext xx").err(),
        Some(TransportError::PlaintextLeak)
    );
    let (rejected, plan) = adapter.prepare_conformance(b"sframe-like ciphertext bytes").unwrap();
    assert!(rejected);
    let report = LocalProcessConformance::from_delivery(
        Endpoint::new("tcp://127.0.0.1:1"),
        plan.route_report(),
        b"sframe-like ciphertext bytes",
        b"sframe-like ciphertext bytes",
        rejected,
    );
    assert!(report.ready());
    assert_eq!(report.delivered_len, b"sframe-like ciphertext bytes".len());
    let broken = LocalProcessConformance::from_delivery(
        Endpoint::new("tcp://127.0.0.1:1"),
        plan.route_report(),
        b"abc",
        b"abd",
        true,
    );
    assert!(!broken.ciphertext_delivered);
    assert!(!broken.ready());
    let turn_adapter = LocalProcessSocketAdapter::new(
        ConnectivityConfig::default(),
        SimulatedNat::turn_only(),
        Vec::new(),
    );
    assert_eq!(
        turn_adapter.prepare_conformance(b"ciphertext").err(),
        Some(TransportError::NoViablePath)
    );
}

fn ready_session() -> Result<TransportSession, TransportSessionError> {
    let mut session = TransportSession::new();
    session.begin_signaling()?;
    session.begin_ice_gathering()?;
    session.begin_checking()?;
    Ok(session)
}

#[test]
fn exposes_exact_g041_state_set() {
    assert_eq!(
        TransportSessionState::ALL,
        [
            TransportSessionState::Idle,
            TransportSessionState::Signaling,
            TransportSessionState::IceGathering,
            TransportSessionState::Checking,
            TransportSessionState::Direct,
            TransportSessionState::OverlayRelay,
            TransportSessionState::TurnRelay,
            TransportSessionState::Disconnected,
            TransportSessionState::Reconnecting,
            TransportSessionState::Failed,
            TransportSessionState::Cancelled,
        ]
    );
}

#[test]
fn direct_path_reaches_connected_snapshot() {
    let mut session = ready_session().unwrap();
    let snapshot = session.select_direct(Endpoint::new("stun:direct.example:3478")).unwrap();

    assert_eq!(snapshot.state, TransportSessionState::Direct);
    assert!(snapshot.connected());
    assert_eq!(session.state(), TransportSessionState::Direct);
    assert_eq!(
        snapshot.route.map(|route| (route.route, route.endpoint)),
        Some((TransportRoute::Direct, Endpoint::new("stun:direct.example:3478")))
    );
}

#[test]
fn configured_turn_path_follows_planner_selection() {
    let turn_config = ConnectivityConfig {
        default_turn: Endpoint::new("turns:relay.example:5349"),
        ..ConnectivityConfig::default()
    };

    let mut turn = ready_session().unwrap();
    let turn_plan = ConnectivityPlanner::plan(&turn_config, SimulatedNat::turn_only()).unwrap();
    let turn_snapshot = turn.select_connectivity_plan(turn_plan).unwrap();
    assert_eq!(turn_snapshot.state, TransportSessionState::TurnRelay);
    assert_eq!(
        turn_snapshot.route.as_ref().map(|route| (
            route.route,
            route.route_report.as_ref().map(|report| report.selected)
        )),
        Some((TransportRoute::TurnRelay, Some(FallbackLeg::Turn)))
    );
}

#[test]
fn active_route_rejects_duplicate_session_start_or_second_route() {
    let mut session = ready_session().unwrap();
    session.select_direct(Endpoint::new("stun:direct.example:3478")).unwrap();

    assert_eq!(
        session.begin_signaling(),
        Err(TransportSessionError::InvalidTransition {
            from: TransportSessionState::Direct,
            event: TransportSessionEvent::StartSignaling,
        })
    );
    assert_eq!(
        session.select_turn_relay(Endpoint::new("turns:relay.example:5349")),
        Err(TransportSessionError::InvalidTransition {
            from: TransportSessionState::Direct,
            event: TransportSessionEvent::SelectTurnRelay,
        })
    );
    assert_eq!(session.state(), TransportSessionState::Direct);
}

#[test]
fn disconnected_session_can_reconnect_and_choose_new_route() {
    let mut session = ready_session().unwrap();
    session.select_direct(Endpoint::new("stun:direct.example:3478")).unwrap();

    let disconnected = session.mark_disconnected("candidate pair failed").unwrap();
    assert_eq!(disconnected.state, TransportSessionState::Disconnected);
    assert_eq!(disconnected.route, None);
    assert_eq!(disconnected.last_error.as_deref(), Some("candidate pair failed"));

    let reconnecting = session.begin_reconnecting().unwrap();
    assert_eq!(reconnecting.state, TransportSessionState::Reconnecting);
    assert_eq!(reconnecting.reconnect_attempts, 1);

    session.begin_signaling().unwrap();
    session.begin_ice_gathering().unwrap();
    session.begin_checking().unwrap();
    let recovered = session.select_turn_relay(Endpoint::new("turns:relay.example:5349")).unwrap();
    assert_eq!(recovered.state, TransportSessionState::TurnRelay);
    assert_eq!(recovered.reconnect_attempts, 1);
}

#[test]
fn invalid_transition_reports_state_and_event() {
    let mut session = TransportSession::new();
    let result = session.begin_checking();

    assert_eq!(
        result,
        Err(TransportSessionError::InvalidTransition {
            from: TransportSessionState::Idle,
            event: TransportSessionEvent::StartConnectivityChecks,
        })
    );
    assert_eq!(session.state(), TransportSessionState::Idle);
}

#[test]
fn failure_is_terminal_until_reset() {
    let mut session = ready_session().unwrap();
    let failed = session.fail("all candidate pairs failed").unwrap();
    assert_eq!(failed.state, TransportSessionState::Failed);
    assert_eq!(failed.route, None);
    assert_eq!(failed.last_error.as_deref(), Some("all candidate pairs failed"));

    assert_eq!(
        session.fail("still failed"),
        Err(TransportSessionError::InvalidTransition {
            from: TransportSessionState::Failed,
            event: TransportSessionEvent::MarkFailed,
        })
    );

    let idle = session.reset().unwrap();
    assert_eq!(idle.state, TransportSessionState::Idle);
    assert_eq!(idle.reconnect_attempts, 0);
    assert_eq!(idle.last_error, None);
}

#[test]
fn reconnect_backoff_cancellation_and_teardown_are_stateful() {
    let policy = ReconnectBackoffPolicy::new(100, 1_000, 2, 2).unwrap();
    assert_eq!(policy.delay_for_attempt(1), 100);
    assert_eq!(policy.delay_for_attempt(2), 200);
    assert_eq!(policy.delay_for_attempt(8), 1_000);
    assert_eq!(policy.delay_for_attempt(u32::MAX), 1_000);
    assert!(ReconnectBackoffPolicy::new(0, 1_000, 2, 2).is_err());
    assert!(ReconnectBackoffPolicy::new(1_000, 100, 2, 2).is_err());
    assert!(ReconnectBackoffPolicy::new(100, 1_000, 0, 2).is_err());
    assert!(ReconnectBackoffPolicy::new(100, 1_000, 2, 0).is_err());

    let mut session = ready_session().unwrap();
    session.select_direct(Endpoint::new("stun:direct.example:3478")).unwrap();
    session.mark_disconnected("candidate pair failed").unwrap();
    let first = session.schedule_reconnect(policy).unwrap();
    assert_eq!(first, ReconnectDecision { attempt: 1, delay_ms: 100 });
    assert_eq!(session.state(), TransportSessionState::Reconnecting);
    session.begin_signaling().unwrap();
    session.begin_ice_gathering().unwrap();
    session.begin_checking().unwrap();
    session.select_turn_relay(Endpoint::new("turns:relay.example:5349")).unwrap();
    let torn_down = session.tear_down("user left voice channel").unwrap();
    assert_eq!(torn_down.state, TransportSessionState::Cancelled);
    assert_eq!(torn_down.route, None);
    assert_eq!(torn_down.last_error.as_deref(), Some("user left voice channel"));
    let reset = session.reset().unwrap();
    assert_eq!(reset.state, TransportSessionState::Idle);

    let mut exhausted = ready_session().unwrap();
    exhausted.select_direct(Endpoint::new("stun:direct.example:3478")).unwrap();
    exhausted.mark_disconnected("network changed").unwrap();
    exhausted.schedule_reconnect(policy).unwrap();
    assert_eq!(
        exhausted.schedule_reconnect(policy),
        Err(TransportSessionError::InvalidTransition {
            from: TransportSessionState::Reconnecting,
            event: TransportSessionEvent::StartReconnecting,
        })
    );
    exhausted.begin_signaling().unwrap();
    exhausted.begin_ice_gathering().unwrap();
    exhausted.begin_checking().unwrap();
    exhausted.select_direct(Endpoint::new("stun:direct.example:3478")).unwrap();
    exhausted.mark_disconnected("network changed again").unwrap();
    exhausted.schedule_reconnect(policy).unwrap();
    exhausted.begin_signaling().unwrap();
    exhausted.begin_ice_gathering().unwrap();
    exhausted.begin_checking().unwrap();
    exhausted.select_direct(Endpoint::new("stun:direct.example:3478")).unwrap();
    exhausted.mark_disconnected("network changed final").unwrap();
    assert_eq!(
        exhausted.schedule_reconnect(policy),
        Err(TransportSessionError::ReconnectAttemptsExhausted { attempts: 2 })
    );
    assert_eq!(exhausted.state(), TransportSessionState::Failed);

    let mut cancelled = ready_session().unwrap();
    let cancelled_snapshot = cancelled.cancel("join flow cancelled").unwrap();
    assert_eq!(cancelled_snapshot.state, TransportSessionState::Cancelled);
    assert_eq!(
        cancelled.cancel("again"),
        Err(TransportSessionError::InvalidTransition {
            from: TransportSessionState::Cancelled,
            event: TransportSessionEvent::Cancel,
        })
    );
}

#[test]
fn overlay_relay_is_never_selected() {
    let mut session = ready_session().unwrap();
    assert_eq!(
        session.select_overlay_relay(Endpoint::new("overlay:peer")),
        Err(TransportSessionError::UnsupportedRoute { route: TransportRoute::OverlayRelay })
    );
    assert_eq!(session.state(), TransportSessionState::Checking);
    assert_eq!(TransportRoute::from_fallback_leg(FallbackLeg::RelayOverlay), TransportRoute::OverlayRelay);
    assert!(!TransportSessionState::Checking.is_connected());
    assert!(TransportSessionState::TurnRelay.is_connected());
    let backoff = ReconnectBackoffPolicy::default();
    assert_eq!(backoff.delay_for_attempt(0), 250);
    assert_eq!(backoff.delay_for_attempt(3), 1_000);
    assert_eq!(backoff.delay_for_attempt(7), 8_000);
    let flat = ReconnectBackoffPolicy { initial_delay_ms: 5, max_delay_ms: 4, multiplier: 1, max_attempts: 1 };
    assert_eq!(flat.delay_for_attempt(u32::MAX), 4);
}

#[test]
fn parses_valid_stun_and_turn_policy_into_typed_config() {
    let policy = IceEndpointPolicy::new(
        vec![Endpoint::new("stun:invite.example.invalid:3478")],
        vec![TurnServerConfig::new(
            Endpoint::new("turns:invite.example.invalid:5349"),
            Some("joiner".to_owned()),
            Some("ephemeral-secret".to_owned()),
            Some("2026-05-29T17:00:00Z".to_owned()),
        )],
    )
    .unwrap();

    let config = IceEndpointPolicy::resolve(Some(&policy), None).unwrap();

    assert_eq!(config.stun_servers, vec![Endpoint::new("stun:invite.example.invalid:3478")]);
    assert_eq!(config.turn_servers[0].endpoint, Endpoint::new("turns:invite.example.invalid:5349"));
    assert!(!config.turn_servers[0].redacted_debug().contains("ephemeral-secret"));
}

#[test]
fn rejects_invalid_ice_endpoint_schemes() {
    assert_eq!(
        IceEndpointPolicy::new(vec![Endpoint::new("https://stun.example.invalid")], vec![]).err(),
        Some(TransportError::InvalidIcePolicy(
            "unsupported ICE endpoint scheme: https://stun.example.invalid".to_owned()
        ))
    );
    assert!(IceEndpointPolicy::new(
        vec![Endpoint::new("stun:valid.example.invalid:3478")],
        vec![TurnServerConfig::new(
            Endpoint::new("https://turn.example.invalid"),
            None,
            None,
            None,
        )],
    )
    .is_err());
}

#[test]
fn group_policy_overrides_invite_policy_by_endpoint_kind() {
    let invite = IceEndpointPolicy::new(
        vec![Endpoint::new("stun:invite.example.invalid:3478")],
        vec![TurnServerConfig::new(
            Endpoint::new("turns:invite.example.invalid:5349"),
            None,
            None,
            None,
        )],
    )
    .unwrap();
    let group = IceEndpointPolicy::new(
        vec![Endpoint::new("stuns:group.example.invalid:5349")],
        vec![TurnServerConfig::new(
            Endpoint::new("turn:group.example.invalid:3478"),
            None,
            None,
            None,
        )],
    )
    .unwrap();

    let config = IceEndpointPolicy::resolve(Some(&invite), Some(&group)).unwrap();
    let fallback = config.to_connectivity_config();
    let stun = ConnectivityPlanner::plan(&fallback, SimulatedNat::direct()).unwrap();
    let turn = ConnectivityPlanner::plan(&fallback, SimulatedNat::turn_only()).unwrap();

    assert_eq!(stun.endpoint, Endpoint::new("stuns:group.example.invalid:5349"));
    assert_eq!(turn.selected, FallbackLeg::Turn);
    assert_eq!(turn.endpoint, Endpoint::new("turn:group.example.invalid:3478"));
}

#[test]
fn ice_policy_messages_defaults_and_signing_bytes() {
    assert_eq!(
        IceEndpointPolicy::new(vec![], vec![]).err(),
        Some(TransportError::InvalidIcePolicy(
            "at least one STUN or TURN server is required".to_owned()
        ))
    );
    assert_eq!(
        IceEndpointPolicy::new(vec![Endpoint::new(" stun:x")], vec![]).err(),
        Some(TransportError::InvalidIcePolicy(
            "ICE endpoint must be non-empty, trimmed, and whitespace-free".to_owned()
        ))
    );
    assert_eq!(
        IceEndpointPolicy::new(
            vec![],
            vec![TurnServerConfig::new(Endpoint::new("turn:x"), Some("u".to_owned()), None, None)]
        )
        .err(),
        Some(TransportError::InvalidIcePolicy(
            "TURN username and credential must be provided together".to_owned()
        ))
    );
    let resolved = IceEndpointPolicy::resolve(None, None).unwrap();
    assert_eq!(resolved.stun_servers, vec![Endpoint::new("stun:default.discrypt.invalid:3478")]);
    let defaults = IceEndpointPolicy::default();
    let bytes = defaults.signing_bytes();
    assert!(bytes.starts_with(b"discrypt-ice-endpoint-policy-v1"));
    let mut expected = b"discrypt-ice-endpoint-policy-v1".to_vec();
    expected.extend_from_slice(&1u64.to_le_bytes());
    expected.extend_from_slice(&34u64.to_le_bytes());
    expected.extend_from_slice(b"stun:default.discrypt.invalid:3478");
    expected.extend_from_slice(&1u64.to_le_bytes());
    expected.extend_from_slice(&35u64.to_le_bytes());
    expected.extend_from_slice(b"turns:default.discrypt.invalid:5349");
    expected.extend_from_slice(&[0, 0, 0]);
    assert_eq!(bytes, expected);
}

fn trust(label: &str) -> Result<AdapterTrustLabel, TransportError> {
    AdapterTrustLabel::new(label, "redacted provider posture")
}

fn endpoint(url: &str, security: SignalingEndpointSecurity) -> SignalingProviderEndpoint {
    SignalingProviderEndpoint::new(Endpoint::new(url), security)
}

fn adapter(kind: SignalingAdapterKind, url: &str) -> Result<SignalingAdapterProfile, TransportError> {
    let security = if url.contains("127.0.0.1") {
        SignalingEndpointSecurity::LocalDevLoopback
    } else {
        SignalingEndpointSecurity::ProductionTls
    };
    Ok(SignalingAdapterProfile {
        profile_id: format!("profile-{}", kind.canonical_name()),
        kind,
        endpoints: vec![endpoint(url, security)],
        metadata_posture: ProviderMetadataPosture::HashedTopic,
        capabilities: SignalingAdapterCapabilities::production_required(),
        trust_label: trust(kind.canonical_name())?,
    })
}

#[test]
fn ipfs_profile_accepts_direct_topic_peer_multiaddr() {
    let profile = adapter(
        SignalingAdapterKind::IpfsPubsub,
        "/ip4/203.0.113.10/tcp/4001/p2p/QmNnooDu7bfjPFoTZYxMNLWUQJyrVwtbZg5gBMjTezGAJN",
    )
    .unwrap();

    assert!(profile.validate().is_ok());
}

#[test]
fn ipfs_profile_rejects_dns_bootstrap_until_topic_peer_discovery_is_audited() {
    let profile = adapter(
        SignalingAdapterKind::IpfsPubsub,
        "/dnsaddr/bootstrap.libp2p.io/p2p/QmNnooDu7bfjPFoTZYxMNLWUQJyrVwtbZg5gBMjTezGAJN",
    )
    .unwrap();

    let error = profile
        .validate()
        .expect_err("DNS bootstrap is not an accepted production IPFS default");
    assert!(error.message().contains("production endpoint scheme is invalid"));
}

#[test]
fn adapter_profile_rejects_plaintext_public_provider_urls() {
    let mut public_mqtt = adapter(SignalingAdapterKind::Mqtt, "mqtts://broker.example.invalid").unwrap();
    public_mqtt.endpoints = vec![endpoint(
        "mqtt://broker.example.invalid",
        SignalingEndpointSecurity::ProductionTls,
    )];
    assert!(matches!(
        public_mqtt.validate(),
        Err(TransportError::InvalidConnectivityPolicy(_))
    ));

    let local_mqtt = adapter(SignalingAdapterKind::Mqtt, "mqtt://127.0.0.1:1883").unwrap();
    assert!(local_mqtt.validate().is_ok());
}

#[test]
fn rendezvous_capability_uses_commitments_and_excludes_display_names() {
    let display_name = "private family voice channel";
    let scope = ConversationScope::new(
        ConnectivityScopeLevel::Channel,
        &derive_scope_commitment(ConnectivityScopeLevel::Channel, display_name.as_bytes(), "test"),
    )
    .unwrap();
    assert_eq!(scope.scope_id_commitment.len(), 64);
    let capability = RendezvousCapability::derive(
        scope.clone(),
        SignalingAdapterKind::Mqtt,
        b"bootstrap secret with at least thirty two bytes",
        b"random-topic-entropy",
        300,
        ProviderMetadataPosture::HashedTopic,
        trust("mqtt").unwrap(),
    )
    .unwrap();

    assert!(capability.topic.starts_with("discrypt-rv1-mqtt-"));
    assert!(!capability.topic.contains("private"));
    assert!(!capability.topic.contains("family"));
    assert_ne!(capability.scope.scope_id_commitment, display_name);

    let nostr = RendezvousCapability::derive(
        scope.clone(),
        SignalingAdapterKind::Nostr,
        b"bootstrap secret with at least thirty two bytes",
        b"random-topic-entropy",
        300,
        ProviderMetadataPosture::HashedTopic,
        trust("nostr").unwrap(),
    )
    .unwrap();
    assert_ne!(capability.topic, nostr.topic);
    assert!(matches!(
        RendezvousCapability::derive(
            scope,
            SignalingAdapterKind::Nostr,
            b"short",
            b"random-topic-entropy",
            300,
            ProviderMetadataPosture::HashedTopic,
            trust("nostr").unwrap(),
        ),
        Err(TransportError::InvalidConnectivityPolicy(_))
    ));
    assert_eq!(
        ConversationScope::new(ConnectivityScopeLevel::Dm, "display name").err(),
        Some(TransportError::InvalidConnectivityPolicy(
            "scope and endpoint commitments must be 64 hex characters".to_owned()
        ))
    );
    assert!(ConversationScope::new(ConnectivityScopeLevel::AppDefault, "app_default").is_ok());
}

fn ice_profile(id: &str) -> Result<IceProfile, TransportError> {
    IceProfile::new(
        id,
        IceEndpointPolicy::new(
            vec![Endpoint::new("stun:stun.l.google.com:19302")],
            vec![TurnServerConfig::new(
                Endpoint::new("turns:turn.example.invalid:5349"),
                None,
                None,
                None,
            )],
        )?,
        id,
    )
}

fn scope(level: ConnectivityScopeLevel, seed: &[u8]) -> Result<ConversationScope, TransportError> {
    ConversationScope::new(level, &derive_scope_commitment(level, seed, "test"))
}

fn policy(
    scope: ConversationScope,
    adapter_kind: SignalingAdapterKind,
    endpoint_url: &str,
    profile_id: &str,
) -> Result<ConnectivityPolicy, TransportError> {
    Ok(ConnectivityPolicy {
        scope,
        signaling_profile_id: profile_id.to_owned(),
        signaling_adapters: vec![adapter(adapter_kind, endpoint_url)?],
        ice_profile_id: format!("{profile_id}.ice"),
        ice_profile: ice_profile(&format!("{profile_id}.ice"))?,
        fallback_behavior: AdapterFallbackBehavior::TryAll,
        trust_label: trust(profile_id)?,
    })
}

#[test]
fn policy_store_resolves_invite_channel_group_dm_then_app_precedence() -> Result<(), TransportError> {
    let app = policy(
        ConversationScope::new(ConnectivityScopeLevel::AppDefault, "app_default")?,
        SignalingAdapterKind::Mqtt,
        "wss://mqtt.example.invalid",
        "app",
    )?;
    let dm_scope = scope(ConnectivityScopeLevel::Dm, b"dm pair")?;
    let group_scope = scope(ConnectivityScopeLevel::Group, b"group")?;
    let channel_scope = scope(ConnectivityScopeLevel::Channel, b"channel")?
        .with_parent_scope_commitment(&group_scope.scope_id_commitment.clone())?;
    let invite_scope = scope(ConnectivityScopeLevel::InviteBootstrap, b"invite")?;

    let dm = policy(dm_scope.clone(), SignalingAdapterKind::Nostr, "wss://relay.example.invalid", "dm")?;
    let group = policy(
        group_scope.clone(),
        SignalingAdapterKind::Mqtt,
        "wss://group-mqtt.example.invalid",
        "group",
    )?;
    let channel = policy(
        channel_scope.clone(),
        SignalingAdapterKind::DiscryptQuicRendezvous,
        "quic://signal.example.invalid",
        "channel",
    )?;
    let invite = policy(
        invite_scope,
        SignalingAdapterKind::IpfsPubsub,
        "/dns/bootstrap.example.invalid/tcp/4001/p2p/12D3KooWBootstrap",
        "invite",
    )?;

    let mut store = ConnectivityPolicyStore {
        app_default: app,
        dm_policies: KeyedList::new(),
        group_policies: KeyedList::new(),
        channel_policies: KeyedList::new(),
    };
    store.dm_policies.upsert(dm_scope.scope_id_commitment.clone(), dm);
    store.group_policies.upsert(group_scope.scope_id_commitment.clone(), group);
    store.channel_policies.upsert(channel_scope.scope_id_commitment.clone(), channel);

    let invite_result = store.resolve(&dm_scope, Some(&invite))?;
    assert_eq!(invite_result.source, ConnectivityPolicySource::InviteBootstrap);
    assert_eq!(invite_result.policy.adapter_kinds(), vec![SignalingAdapterKind::IpfsPubsub]);

    let channel_result = store.resolve(&channel_scope, None)?;
    assert_eq!(channel_result.source, ConnectivityPolicySource::ChannelOverride);
    assert_eq!(
        channel_result.policy.adapter_kinds(),
        vec![SignalingAdapterKind::DiscryptQuicRendezvous]
    );

    let inherited_channel = scope(ConnectivityScopeLevel::Channel, b"other channel")?
        .with_parent_scope_commitment(&group_scope.scope_id_commitment)?;
    let inherited_result = store.resolve(&inherited_channel, None)?;
    assert_eq!(inherited_result.source, ConnectivityPolicySource::GroupDefault);

    let dm_result = store.resolve(&dm_scope, None)?;
    assert_eq!(dm_result.source, ConnectivityPolicySource::DmOverride);
    Ok(())
}

#[test]
fn ipfs_profile_accepts_dns_direct_peer_multiaddrs() {
    for url in [
        "/dns/bootstrap.example.invalid/tcp/4001/p2p/12D3KooWBootstrap",
        "/dns4/bootstrap.example.invalid/tcp/4001/p2p/12D3KooWBootstrap",
        "libp2p:///dns6/bootstrap.example.invalid/tcp/4001/p2p/12D3KooWBootstrap",
    ] {
        assert!(adapter(SignalingAdapterKind::IpfsPubsub, url).unwrap().validate().is_ok(), "{url}");
    }
    assert!(adapter(SignalingAdapterKind::IpfsPubsub, "/dns/bootstrap.example.invalid/udp/4001/p2p/x")
        .unwrap()
        .validate()
        .is_err());
}
