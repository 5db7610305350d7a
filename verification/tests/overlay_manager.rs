use std::cmp::Ordering;

use discrypt::capability::{
    BatteryDozePosture, RelayCapabilityAdvertisement, RelayCapacityAdvertisement,
};
use discrypt::manager::{
    ChurnDampingPolicy, MediaConcealmentReport, OverlayManager, OverlayManagerError,
    OverlayRouteUse, RelayRuntimeObservation, TopologyChangeReason,
};
use discrypt::topology::{hop_limit_ok, reroute_after_failure, RelayLinks, TopologyError};

/// Score a runtime observation the way relay ranking does: low latency,
/// stable probes, low battery cost and no freeloading rank first.
fn score(o: &RelayRuntimeObservation) -> f32 {
    let total = o.successful_probes.saturating_add(o.failed_probes).max(1);
    let stability = (o.successful_probes as f32 / total as f32).clamp(0.0, 1.0);
    let battery_cost = o.battery_cost_bps as f32 / 10_000.0;
    let freeload = if o.contributed_bytes == 0 && o.consumed_bytes > 0 {
        1000.0
    } else if o.consumed_bytes > o.contributed_bytes {
        let deficit = o.consumed_bytes.saturating_sub(o.contributed_bytes) as f32;
        (deficit / o.contributed_bytes.max(1) as f32).min(1000.0)
    } else {
        0.0
    };
    (1000.0 / (o.latency_ms.max(1) as f32)) + stability - battery_cost - freeload
}

fn rank_order(manager: &OverlayManager) -> Vec<String> {
    let mut observations = manager.observations();
    observations.sort_by(|a, b| {
        score(b)
            .partial_cmp(&score(a))
            .unwrap_or(Ordering::Equal)
            .then_with(|| a.peer_id.cmp(&b.peer_id))
    });
    observations.into_iter().map(|o| o.peer_id).collect()
}

fn names(ids: &[&str]) -> Vec<String> {
    ids.iter().map(|id| (*id).to_owned()).collect()
}

fn observation(
    peer_id: &str,
    latency_ms: u32,
    successful: u32,
    consumed: u64,
) -> RelayRuntimeObservation {
    RelayRuntimeObservation {
        peer_id: peer_id.to_owned(),
        latency_ms,
        successful_probes: successful,
        failed_probes: 0,
        battery_cost_bps: 0,
        contributed_bytes: 10_000,
        consumed_bytes: consumed,
    }
}

fn advertisement(peer_id: &str, rtt: u32, egress: u64) -> RelayCapabilityAdvertisement {
    RelayCapabilityAdvertisement {
        peer_id: peer_id.to_owned(),
        sequence: 1,
        issued_at_ms: 1_000,
        expires_at_ms: 2_000,
        relay_capacity: RelayCapacityAdvertisement {
            max_fanout: 8,
            egress_bytes_per_second: egress,
            accepts_store_forward: true,
        },
        battery_doze: BatteryDozePosture::BatteryNormal,
        observed_rtt_ms: rtt,
        packet_loss_bps: 0,
        contributed_bytes: 10_000,
        consumed_bytes: 0,
    }
}

fn diamond(manager: &mut OverlayManager, a: &str, b: &str) -> Result<(), OverlayManagerError> {
    manager.connect_peers("alice", a)?;
    manager.connect_peers(a, "bob")?;
    manager.connect_peers("alice", b)?;
    manager.connect_peers(b, "bob")?;
    Ok(())
}

#[test]
fn route_prefers_ranked_neighbors_and_respects_hop_limit() -> Result<(), TopologyError> {
    let mut topology = RelayLinks::default();
    for peer in ["alice", "slow-relay", "fast-relay", "bob"] {
        topology.add_peer(peer);
    }
    topology.connect("alice", "slow-relay")?;
    topology.connect("alice", "fast-relay")?;
    topology.connect("slow-relay", "bob")?;
    topology.connect("fast-relay", "bob")?;

    let ranking = names(&["alice", "bob", "fast-relay", "slow-relay"]);
    let route = topology.route("alice", "bob", &ranking)?;
    assert_eq!(route.path, ["alice", "fast-relay", "bob"]);
    assert!(route.within_hop_limit());
    assert!(!hop_limit_ok(4));
    Ok(())
}

#[test]
fn refuses_routes_deeper_than_three_hops() -> Result<(), TopologyError> {
    let mut topology = RelayLinks::default();
    for peer in ["a", "b", "c", "d", "e"] {
        topology.add_peer(peer);
    }
    topology.connect("a", "b")?;
    topology.connect("b", "c")?;
    topology.connect("c", "d")?;
    topology.connect("d", "e")?;

    let ranking = names(&["a", "b", "c", "d", "e"]);
    assert_eq!(topology.route("a", "e", &ranking), Err(TopologyError::NoRoute));
    assert_eq!(
        topology.route("a", "d", &ranking).map(|r| r.path),
        Ok(names(&["a", "b", "c", "d"]))
    );
    Ok(())
}

#[test]
fn route_uses_neighbors_missing_from_the_ranking() -> Result<(), TopologyError> {
    let mut topology = RelayLinks::default();
    for peer in ["a", "b", "c"] {
        topology.add_peer(peer);
    }
    topology.connect("a", "b")?;
    topology.connect("b", "c")?;
    let route = topology.route("a", "c", &Vec::new())?;
    assert_eq!(route.path, ["a", "b", "c"]);
    Ok(())
}

#[test]
fn route_reports_unknown_peers_and_same_endpoint() -> Result<(), TopologyError> {
    let mut topology = RelayLinks::default();
    topology.add_peer("a");
    assert_eq!(
        topology.route("x", "a", &Vec::new()),
        Err(TopologyError::UnknownPeer("x".to_owned()))
    );
    assert_eq!(
        topology.route("a", "y", &Vec::new()),
        Err(TopologyError::UnknownPeer("y".to_owned()))
    );
    assert_eq!(topology.route("a", "a", &Vec::new())?.path, ["a"]);
    assert_eq!(
        topology.route_avoiding("a", "a", &names(&["a"]), &Vec::new()),
        Err(TopologyError::NoRoute)
    );
    Ok(())
}

#[test]
fn connect_respects_fanout_and_known_peers() -> Result<(), TopologyError> {
    let mut topology = RelayLinks::new(3, 1);
    for peer in ["a", "b", "c"] {
        topology.add_peer(peer);
    }
    topology.connect("a", "b")?;
    topology.connect("a", "b")?;
    assert_eq!(
        topology.connect("a", "c"),
        Err(TopologyError::FanoutLimit("a".to_owned()))
    );
    assert_eq!(
        topology.connect("a", "z"),
        Err(TopologyError::UnknownPeer("z".to_owned()))
    );
    assert_eq!(topology.peer_degree("a"), Some(1));
    assert_eq!(topology.peer_degree("c"), Some(0));
    assert_eq!(topology.peer_degree("z"), None);
    assert_eq!(topology.neighbors("a"), names(&["b"]));
    Ok(())
}

#[test]
fn failover_avoids_failed_relay_within_gate() -> Result<(), TopologyError> {
    let mut topology = RelayLinks::default();
    for peer in ["alice", "primary", "backup", "bob"] {
        topology.add_peer(peer);
    }
    topology.connect("alice", "primary")?;
    topology.connect("primary", "bob")?;
    topology.connect("alice", "backup")?;
    topology.connect("backup", "bob")?;

    let ranking = names(&["alice", "bob", "primary", "backup"]);
    let previous = topology.route("alice", "bob", &ranking)?;
    assert_eq!(previous.path, ["alice", "primary", "bob"]);
    let decision = reroute_after_failure(&topology, previous, "primary", 2_750, &ranking)?;
    assert_eq!(decision.replacement.path, ["alice", "backup", "bob"]);
    assert!(decision.converged_within_phase2_gate());
    assert!(!decision.replacement.contains_peer("primary"));
    Ok(())
}

#[test]
fn live_manager_routes_from_runtime_observations() -> Result<(), OverlayManagerError> {
    let mut manager = OverlayManager::default();
    for peer in [
        observation("alice", 5, 10, 0),
        observation("slow-relay", 200, 10, 0),
        observation("fast-relay", 20, 10, 0),
        observation("bob", 5, 10, 0),
    ] {
        manager.upsert_observation(peer)?;
    }
    manager.connect_peers("alice", "slow-relay")?;
    manager.connect_peers("slow-relay", "bob")?;
    manager.connect_peers("alice", "fast-relay")?;
    manager.connect_peers("fast-relay", "bob")?;

    let decision = manager.route("alice", "bob", &rank_order(&manager))?;
    assert_eq!(decision.route.path, ["alice", "fast-relay", "bob"]);
    assert_eq!(decision.ranked_source_neighbors[0], "fast-relay");
    assert!(decision.manager_epoch >= 8);
    Ok(())
}

#[test]
fn updated_observations_change_route_without_rebuilding_graph() -> Result<(), OverlayManagerError>
{
    let mut manager = OverlayManager::default();
    for peer in [
        observation("alice", 5, 10, 0),
        observation("relay-a", 10, 10, 0),
        observation("relay-b", 50, 10, 0),
        observation("bob", 5, 10, 0),
    ] {
        manager.upsert_observation(peer)?;
    }
    diamond(&mut manager, "relay-a", "relay-b")?;
    assert_eq!(
        manager.route("alice", "bob", &rank_order(&manager))?.route.path,
        ["alice", "relay-a", "bob"]
    );

    manager.upsert_observation(observation("relay-a", 500, 1, 50_000))?;
    assert_eq!(
        manager.route("alice", "bob", &rank_order(&manager))?.route.path,
        ["alice", "relay-b", "bob"]
    );
    Ok(())
}

#[test]
fn manager_accepts_capability_advertisements_as_routing_inputs() -> Result<(), OverlayManagerError>
{
    let mut manager = OverlayManager::default();
    for (peer_id, rtt) in [("alice", 5), ("relay-a", 25), ("relay-b", 75), ("bob", 5)] {
        manager.upsert_capability_advertisement(advertisement(peer_id, rtt, 128_000), 1_500)?;
    }
    diamond(&mut manager, "relay-a", "relay-b")?;
    assert_eq!(
        manager.route("alice", "bob", &rank_order(&manager))?.route.path,
        ["alice", "relay-a", "bob"]
    );
    assert_eq!(manager.peer_count(), 4);
    Ok(())
}

#[test]
fn constructs_text_and_voice_routes_with_hop_and_capacity_checks() -> Result<(), OverlayManagerError>
{
    let mut manager = OverlayManager::default();
    for (peer_id, rtt, egress) in [
        ("alice", 5, 64_000),
        ("relay-a", 25, 64_000),
        ("relay-b", 30, 48_000),
        ("bob", 5, 64_000),
    ] {
        manager.upsert_capability_advertisement(advertisement(peer_id, rtt, egress), 1_500)?;
    }
    manager.connect_peers("alice", "relay-a")?;
    manager.connect_peers("relay-a", "relay-b")?;
    manager.connect_peers("relay-b", "bob")?;

    let ranking = rank_order(&manager);
    let text = manager.construct_route(OverlayRouteUse::TextControl, "alice", "bob", &ranking)?;
    assert_eq!(text.hop_count, 3);
    assert_eq!(text.bottleneck_egress_bytes_per_second, Some(48_000));
    let voice = manager.construct_route(OverlayRouteUse::VoiceMedia, "alice", "bob", &ranking)?;
    assert_eq!(voice.route.path, ["alice", "relay-a", "relay-b", "bob"]);
    Ok(())
}

#[test]
fn voice_route_rejects_under_capacity_relay() -> Result<(), OverlayManagerError> {
    let mut manager = OverlayManager::default();
    for (peer_id, egress) in [("alice", 64_000), ("relay", 8_000), ("bob", 64_000)] {
        manager.upsert_capability_advertisement(advertisement(peer_id, 20, egress), 1_500)?;
    }
    manager.connect_peers("alice", "relay")?;
    manager.connect_peers("relay", "bob")?;
    let ranking = rank_order(&manager);
    assert_eq!(
        manager.construct_route(OverlayRouteUse::VoiceMedia, "alice", "bob", &ranking),
        Err(OverlayManagerError::RouteCapacity(
            "relay relay lacks egress capacity for VoiceMedia".to_owned()
        ))
    );
    assert!(manager
        .construct_route(OverlayRouteUse::TextControl, "alice", "bob", &ranking)
        .is_ok());
    Ok(())
}

#[test]
fn construct_route_requires_relay_advertisement() -> Result<(), OverlayManagerError> {
    let mut manager = OverlayManager::default();
    for peer in [
        observation("alice", 5, 10, 0),
        observation("relay", 5, 10, 0),
        observation("bob", 5, 10, 0),
    ] {
        manager.upsert_observation(peer)?;
    }
    manager.connect_peers("alice", "relay")?;
    manager.connect_peers("relay", "bob")?;
    assert_eq!(
        manager.construct_route(OverlayRouteUse::TextControl, "alice", "bob", &Vec::new()),
        Err(OverlayManagerError::RouteCapacity(
            "missing capability advertisement for relay relay".to_owned()
        ))
    );
    Ok(())
}

#[test]
fn planned_reparenting_is_damped_to_one_change_per_window() -> Result<(), OverlayManagerError> {
    let mut manager = OverlayManager::default().with_churn_policy(ChurnDampingPolicy {
        min_planned_change_interval_ms: 30_000,
    });
    for peer in [
        observation("alice", 5, 10, 0),
        observation("relay-a", 20, 10, 0),
        observation("relay-b", 30, 10, 0),
    ] {
        manager.upsert_observation(peer)?;
    }
    let first = manager.connect_peers_with_churn_damping(
        "alice",
        "relay-a",
        1_000,
        TopologyChangeReason::PlannedReparent,
    )?;
    assert_eq!(first.next_planned_change_allowed_at_ms, Some(31_000));
    assert!(matches!(
        manager.connect_peers_with_churn_damping(
            "alice",
            "relay-b",
            30_999,
            TopologyChangeReason::PlannedReparent,
        ),
        Err(OverlayManagerError::ChurnDamped {
            next_allowed_at_ms: 31_000
        })
    ));
    assert!(manager
        .connect_peers_with_churn_damping(
            "alice",
            "relay-b",
            31_000,
            TopologyChangeReason::PlannedReparent,
        )
        .is_ok());
    Ok(())
}

#[test]
fn hard_failure_reparent_bypasses_churn_damping() -> Result<(), OverlayManagerError> {
    let mut manager = OverlayManager::default();
    for peer in [
        observation("alice", 5, 10, 0),
        observation("relay-a", 20, 10, 0),
        observation("relay-b", 30, 10, 0),
    ] {
        manager.upsert_observation(peer)?;
    }
    manager.connect_peers_with_churn_damping(
        "alice",
        "relay-a",
        1_000,
        TopologyChangeReason::PlannedReparent,
    )?;
    let hard_failure = manager.connect_peers_with_churn_damping(
        "alice",
        "relay-b",
        1_001,
        TopologyChangeReason::HardFailure,
    )?;
    assert_eq!(hard_failure.reason, TopologyChangeReason::HardFailure);
    Ok(())
}

fn failover_manager() -> Result<OverlayManager, OverlayManagerError> {
    let mut manager = OverlayManager::default();
    for peer in [
        observation("alice", 5, 10, 0),
        observation("primary", 10, 10, 0),
        observation("backup", 30, 10, 0),
        observation("bob", 5, 10, 0),
    ] {
        manager.upsert_observation(peer)?;
    }
    diamond(&mut manager, "primary", "backup")?;
    Ok(manager)
}

#[test]
fn failover_report_avoids_failed_peer_and_records_convergence() -> Result<(), OverlayManagerError> {
    let mut manager = failover_manager()?;
    let ranking = rank_order(&manager);
    let previous = manager.route("alice", "bob", &ranking)?.route;
    let report = manager.mark_failed_and_reroute(previous, "primary", 2_400, &ranking)?;
    assert_eq!(report.decision.replacement.path, ["alice", "backup", "bob"]);
    assert!(report.decision.converged_within_phase2_gate());
    assert_eq!(report.recovery_policy.max_failover_ms, 3_000);
    assert!(report.media_concealment.is_none());
    assert!(!manager
        .route("alice", "bob", &ranking)?
        .route
        .contains_peer("primary"));
    Ok(())
}

#[test]
fn fresh_observation_clears_failed_mark() -> Result<(), OverlayManagerError> {
    let mut manager = failover_manager()?;
    let ranking = rank_order(&manager);
    let previous = manager.route("alice", "bob", &ranking)?.route;
    manager.mark_failed_and_reroute(previous, "primary", 2_400, &ranking)?;
    manager.upsert_observation(observation("primary", 10, 10, 0))?;
    let ranking = rank_order(&manager);
    assert_eq!(
        manager.route("alice", "bob", &ranking)?.route.path,
        ["alice", "primary", "bob"]
    );
    Ok(())
}

#[test]
fn media_failover_enforces_three_second_and_200ms_gap_targets() -> Result<(), OverlayManagerError> {
    let mut manager = failover_manager()?;
    let ranking = rank_order(&manager);
    let previous = manager.route("alice", "bob", &ranking)?.route;
    let report = manager.mark_failed_media_and_reroute(previous, "primary", 2_750, 180, &ranking)?;
    assert_eq!(report.decision.replacement.path, ["alice", "backup", "bob"]);
    assert_eq!(
        report.media_concealment,
        Some(MediaConcealmentReport {
            observed_gap_ms: 180,
            target_gap_ms: 200,
            concealment_frames: 9,
            target_met: true,
        })
    );
    Ok(())
}

#[test]
fn failover_rejects_sla_and_media_gap_violations() -> Result<(), OverlayManagerError> {
    let mut manager = failover_manager()?;
    let ranking = rank_order(&manager);
    let previous = manager.route("alice", "bob", &ranking)?.route;
    assert!(matches!(
        manager.mark_failed_media_and_reroute(previous.clone(), "primary", 3_001, 180, &ranking),
        Err(OverlayManagerError::FailoverSlaExceeded {
            observed_ms: 3_001,
            max_failover_ms: 3_000
        })
    ));
    assert!(matches!(
        manager.mark_failed_media_and_reroute(previous, "primary", 2_900, 201, &ranking),
        Err(OverlayManagerError::MediaGapExceeded {
            observed_gap_ms: 201,
            max_gap_ms: 200
        })
    ));
    Ok(())
}

#[test]
fn rejects_empty_or_unprobed_runtime_observations() {
    let mut manager = OverlayManager::default();
    let mut invalid = observation("", 10, 1, 0);
    assert!(matches!(
        manager.upsert_observation(invalid.clone()),
        Err(OverlayManagerError::InvalidObservation(_))
    ));
    invalid.peer_id = "relay".to_owned();
    invalid.successful_probes = 0;
    invalid.failed_probes = 0;
    assert!(matches!(
        manager.upsert_observation(invalid),
        Err(OverlayManagerError::InvalidObservation(_))
    ));
    assert_eq!(manager.peer_count(), 0);
    assert_eq!(manager.epoch(), 0);
}

#[test]
fn constructed_route_is_the_ranked_route() -> Result<(), OverlayManagerError> {
    let mut manager = OverlayManager::default();
    for (peer_id, rtt) in [("alice", 5), ("relay-a", 25), ("relay-b", 75), ("bob", 5)] {
        manager.upsert_capability_advertisement(advertisement(peer_id, rtt, 128_000), 1_500)?;
    }
    diamond(&mut manager, "relay-a", "relay-b")?;
    let preferred_b = vec!["relay-b".to_owned(), "relay-a".to_owned()];
    let preferred_a = vec!["relay-a".to_owned(), "relay-b".to_owned()];
    for ranking in [preferred_a, preferred_b] {
        let routed = manager.route("alice", "bob", &ranking)?.route;
        let constructed = manager.construct_route(OverlayRouteUse::TextControl, "alice", "bob", &ranking)?;
        assert_eq!(constructed.route.path, routed.path);
        assert_eq!(routed.path[1], ranking[0]);
    }
    Ok(())
}
