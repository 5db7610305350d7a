use discrypt::capability::{
    BatteryDozePosture, CapabilityAdvertisementBook, CapabilityAdvertisementError,
    RelayCapabilityAdvertisement, RelayCapacityAdvertisement,
};
use discrypt::gossip::{GossipItem, GossipMesh, GossipNode};
use discrypt::integrity::{
    contains_plaintext, RelayIntegrityError, RelayPacket, RelayPayloadKind, RelayProtectedEnvelope,
};
use discrypt::redelivery::{PacketId, RedeliveryError, RedeliveryTracker};
use discrypt::store_forward::{
    StoreForwardEnvelope, StoreForwardError, StoreForwardPolicy, StoreForwardQueue,
    VolunteerRelaySettings,
};
use discrypt::topology::MAX_RELAY_HOPS;

fn ad(peer_id: &str, sequence: u64) -> RelayCapabilityAdvertisement {
    RelayCapabilityAdvertisement {
        peer_id: peer_id.to_owned(),
        sequence,
        issued_at_ms: 1_000,
        expires_at_ms: 2_000,
        relay_capacity: RelayCapacityAdvertisement {
            max_fanout: 8,
            egress_bytes_per_second: 256_000,
            accepts_store_forward: true,
        },
        battery_doze: BatteryDozePosture::BatteryNormal,
        observed_rtt_ms: 42,
        packet_loss_bps: 125,
        contributed_bytes: 10_000,
        consumed_bytes: 40_000,
    }
}

#[test]
fn advertisement_validates_and_converts_to_runtime_observation() {
    let advertisement = ad("relay-a", 1);
    advertisement.validate_at(1_500).unwrap();
    assert_eq!(advertisement.freeload_score_bps(), 7_500);
    let observation = advertisement.to_runtime_observation();
    assert_eq!(observation.peer_id, "relay-a");
    assert_eq!(observation.latency_ms, 42);
    assert_eq!(observation.successful_probes, 9_875);
    assert_eq!(observation.failed_probes, 125);
    assert_eq!(observation.battery_cost_bps, 250);
    assert_ne!(advertisement.digest(), [0u8; 32]);
}

#[test]
fn advertisement_book_rejects_expired_and_stale_updates() {
    let mut book = CapabilityAdvertisementBook::default();
    assert_eq!(book.accept(ad("relay-a", 1), 1_500), Ok(()));
    assert_eq!(book.len(), 1);
    assert!(matches!(
        book.accept(ad("relay-a", 1), 1_500),
        Err(CapabilityAdvertisementError::Stale { .. })
    ));
    assert!(matches!(
        book.accept(ad("relay-b", 1), 2_000),
        Err(CapabilityAdvertisementError::Expired)
    ));
    assert_eq!(book.accept(ad("relay-a", 2), 1_500), Ok(()));
    assert_eq!(book.get("relay-a").map(|ad| ad.sequence), Some(2));
}

#[test]
fn rejects_placeholder_capacity_and_invalid_loss() {
    let mut invalid = ad("relay", 1);
    invalid.relay_capacity.max_fanout = 0;
    assert!(matches!(
        invalid.validate_at(1_500),
        Err(CapabilityAdvertisementError::Invalid(_))
    ));
    invalid = ad("relay", 1);
    invalid.packet_loss_bps = RelayCapabilityAdvertisement::MAX_BPS + 1;
    assert!(matches!(
        invalid.validate_at(1_500),
        Err(CapabilityAdvertisementError::Invalid(_))
    ));
}

#[test]
fn capability_errors_carry_exact_messages_and_stale_details() {
    let mut missing = ad("   ", 1);
    assert_eq!(
        missing.validate_at(1_500),
        Err(CapabilityAdvertisementError::Invalid("peer id is required".to_owned()))
    );
    missing = ad("relay", 0);
    assert_eq!(
        missing.validate_at(1_500),
        Err(CapabilityAdvertisementError::Invalid("sequence must be non-zero".to_owned()))
    );
    let mut book = CapabilityAdvertisementBook::new();
    assert!(book.is_empty());
    book.accept(ad("relay-a", 5), 1_500).unwrap();
    assert_eq!(
        book.accept(ad("relay-a", 3), 1_500),
        Err(CapabilityAdvertisementError::Stale {
            peer_id: "relay-a".to_owned(),
            sequence: 3,
            latest: 5,
        })
    );
    assert_eq!(book.get("relay-a").map(|ad| ad.sequence), Some(5));
    assert!(book.get("relay-z").is_none());
}

#[test]
fn freeload_score_and_posture_costs_are_exact() {
    let mut a = ad("relay", 1);
    a.contributed_bytes = 0;
    a.consumed_bytes = 3;
    assert_eq!(a.freeload_score_bps(), 10_000);
    a.contributed_bytes = 1;
    assert_eq!(a.freeload_score_bps(), 6_666);
    a.consumed_bytes = 0;
    assert_eq!(a.freeload_score_bps(), 0);
    assert_eq!(BatteryDozePosture::Charging.cost_bps(), 0);
    assert_eq!(BatteryDozePosture::Unknown.cost_bps(), 1_000);
    assert_eq!(BatteryDozePosture::BatterySaver.cost_bps(), 2_500);
    assert_eq!(BatteryDozePosture::Dozing.cost_bps(), 7_500);
}

#[test]
fn advertisement_digest_tracks_content() {
    let a = ad("relay-a", 1);
    let b = ad("relay-a", 2);
    assert_eq!(a.digest(), ad("relay-a", 1).digest());
    assert_ne!(a.digest(), b.digest());
}

fn envelope(ciphertext: &[u8]) -> Result<RelayProtectedEnvelope, RelayIntegrityError> {
    RelayProtectedEnvelope::new(
        RelayPayloadKind::Media,
        b"kid".to_vec(),
        7,
        b"route:a:b",
        ciphertext.to_vec(),
    )
}

#[test]
fn relay_forwarding_preserves_ciphertext_opacity() {
    let packet = RelayPacket::from_envelope("relay-a", envelope(b"DCF1\x01ciphertext-only").unwrap());
    let forwarded = packet.forward_checked("relay-b").unwrap();
    assert_eq!(forwarded.next_hop, "relay-b");
    assert_eq!(forwarded.hop_count, 1);
    assert!(!contains_plaintext(&forwarded, b"voice-frame"));
}

#[test]
fn active_relay_tamper_changes_bytes_for_receiver_detection() {
    let packet = RelayPacket::from_envelope("relay-a", envelope(b"DCF1\x01ciphertext-only").unwrap());
    let tampered = packet.clone().tamper();
    assert_ne!(packet.envelope.ciphertext, tampered.envelope.ciphertext);
}

#[test]
fn checked_forward_rejects_excess_hops_and_empty_ciphertext() {
    let mut packet = RelayPacket::from_envelope("relay-a", envelope(b"ciphertext").unwrap());
    packet.hop_count = MAX_RELAY_HOPS as u8;
    assert_eq!(
        packet.forward_checked("relay-b"),
        Err(RelayIntegrityError::HopLimitExceeded)
    );
    assert_eq!(
        RelayProtectedEnvelope::new(RelayPayloadKind::Media, b"kid".to_vec(), 1, b"aad", Vec::new()),
        Err(RelayIntegrityError::EmptyCiphertext)
    );
}

#[test]
fn rejects_raw_ciphertext_without_kid_counter_and_aad_metadata() {
    assert_eq!(
        RelayProtectedEnvelope::new(
            RelayPayloadKind::Media,
            Vec::new(),
            1,
            b"route",
            b"ciphertext".to_vec()
        ),
        Err(RelayIntegrityError::MissingProtectedMetadata)
    );
    assert_eq!(
        RelayProtectedEnvelope::new(
            RelayPayloadKind::Media,
            b"kid".to_vec(),
            1,
            b"",
            b"ciphertext".to_vec()
        ),
        Err(RelayIntegrityError::MissingProtectedMetadata)
    );
}

#[test]
fn visible_bytes_expose_metadata_and_ciphertext_only() {
    let env = envelope(b"secret-ish").unwrap();
    let visible = env.visible_bytes();
    assert!(visible.starts_with(b"media"));
    assert!(visible.ends_with(b"secret-ish"));
    assert_eq!(visible.len(), 5 + 8 + 3 + 8 + 32 + 10);
    let windows_contain = |needle: &[u8]| visible.windows(needle.len()).any(|w| w == needle);
    assert!(!windows_contain(b"route:a:b"));
    let packet = RelayPacket::from_envelope("relay-a", env);
    assert!(contains_plaintext(&packet, b"secret"));
    assert!(!contains_plaintext(&packet, b""));
    assert_eq!(packet.validate_ciphertext_only(), Ok(()));
    let forwarded = packet.forward("b").forward("c").forward("d");
    assert_eq!(forwarded.hop_count, 3);
    assert_eq!(forwarded.validate_ciphertext_only(), Ok(()));
    assert_eq!(
        forwarded.forward("e").validate_ciphertext_only(),
        Err(RelayIntegrityError::HopLimitExceeded)
    );
}

fn packet(sequence: u64) -> PacketId {
    PacketId {
        sender_id: "kid-alice".to_owned(),
        sequence,
    }
}

#[test]
fn rejects_duplicate_and_stale_sequences() {
    let mut tracker = RedeliveryTracker::new(4, 2);
    assert_eq!(tracker.accept(&packet(10)), Ok(()));
    assert_eq!(tracker.accept(&packet(8)), Ok(()));
    assert_eq!(tracker.accept(&packet(8)), Err(RedeliveryError::Replay));
    assert_eq!(tracker.accept(&packet(15)), Ok(()));
    assert_eq!(tracker.accept(&packet(10)), Err(RedeliveryError::Replay));
}

#[test]
fn caps_redelivery_fanout() {
    let mut tracker = RedeliveryTracker::new(64, 2);
    let packet = packet(1);
    assert_eq!(tracker.request_redelivery(packet.clone(), "a"), Ok(()));
    assert_eq!(tracker.request_redelivery(packet.clone(), "b"), Ok(()));
    assert_eq!(tracker.request_redelivery(packet.clone(), "b"), Ok(()));
    assert_eq!(
        tracker.request_redelivery(packet.clone(), "c"),
        Err(RedeliveryError::FanoutExhausted)
    );
    assert_eq!(tracker.redelivery_fanout(&packet), 2);
}

#[test]
fn replay_window_keeps_rejecting_once_rejected() {
    let mut tracker = RedeliveryTracker::default();
    assert_eq!(tracker.accept(&packet(100)), Ok(()));
    assert_eq!(tracker.accept(&packet(100)), Err(RedeliveryError::Replay));
    assert_eq!(tracker.accept(&packet(200)), Ok(()));
    assert_eq!(tracker.accept(&packet(100)), Err(RedeliveryError::Replay));
    assert_eq!(tracker.accept(&packet(137)), Ok(()));
    assert_eq!(tracker.accept(&packet(136)), Err(RedeliveryError::Replay));
    let other = PacketId { sender_id: "kid-bob".to_owned(), sequence: 1 };
    assert_eq!(tracker.accept(&other), Ok(()));
    assert_eq!(tracker.redelivery_fanout(&other), 0);
    let mut zero = RedeliveryTracker::new(0, 0);
    assert_eq!(zero.request_redelivery(other.clone(), "a"), Ok(()));
    assert_eq!(zero.request_redelivery(other.clone(), "b"), Err(RedeliveryError::FanoutExhausted));
    assert_eq!(zero.accept(&packet(5)), Ok(()));
    assert_eq!(zero.accept(&packet(4)), Err(RedeliveryError::Replay));
}

fn payload(ciphertext: &[u8]) -> Result<RelayProtectedEnvelope, RelayIntegrityError> {
    RelayProtectedEnvelope::new(
        RelayPayloadKind::StoreForward,
        b"kid-store".to_vec(),
        1,
        b"message aad",
        ciphertext.to_vec(),
    )
}

fn production_policy() -> StoreForwardPolicy {
    let mut volunteer = VolunteerRelaySettings::enabled("relay-local");
    volunteer.max_queue_envelopes = 2;
    volunteer.max_fanout_per_message = 2;
    volunteer.max_volunteer_relays = 2;
    StoreForwardPolicy::new(&["bob"], 500, 1_000, volunteer)
}

fn capability(peer_id: &str, accepts_store_forward: bool) -> RelayCapabilityAdvertisement {
    RelayCapabilityAdvertisement {
        peer_id: peer_id.to_owned(),
        sequence: 1,
        issued_at_ms: 1_000,
        expires_at_ms: 2_000,
        relay_capacity: RelayCapacityAdvertisement {
            max_fanout: 8,
            egress_bytes_per_second: 64_000,
            accepts_store_forward,
        },
        battery_doze: BatteryDozePosture::Charging,
        observed_rtt_ms: 20,
        packet_loss_bps: 10,
        contributed_bytes: 10,
        consumed_bytes: 10,
    }
}

#[test]
fn queues_ciphertext_until_ttl_and_recipient_match() {
    let mut queue = StoreForwardQueue::new();
    queue
        .enqueue(
            StoreForwardEnvelope::new("m1", "bob", payload(b"ciphertext").unwrap(), 1_000, 500, 2)
                .unwrap(),
        )
        .unwrap();
    assert!(queue.drain_for_recipient("alice", 1_100).is_empty());
    assert_eq!(queue.len(), 1);
    let delivered = queue.drain_for_recipient("bob", 1_100);
    assert_eq!(delivered.len(), 1);
    assert_eq!(delivered[0].payload.ciphertext, b"ciphertext");
    assert!(queue.is_empty());
}

#[test]
fn expired_messages_are_not_delivered() {
    let mut queue = StoreForwardQueue::new();
    queue
        .enqueue(
            StoreForwardEnvelope::new("m1", "bob", payload(b"ciphertext").unwrap(), 1_000, 100, 1)
                .unwrap(),
        )
        .unwrap();
    assert!(queue.drain_for_recipient("bob", 1_101).is_empty());
    assert!(queue.is_empty());
}

#[test]
fn policy_rejects_non_members_retention_overrun_and_fanout() {
    let mut queue = StoreForwardQueue::with_policy(production_policy());
    assert_eq!(
        queue.enqueue(
            StoreForwardEnvelope::new(
                "m-non-member",
                "mallory",
                payload(b"ciphertext").unwrap(),
                1_000,
                100,
                1,
            )
            .unwrap()
        ),
        Err(StoreForwardError::UnauthorizedRecipient)
    );
    assert_eq!(
        queue.enqueue(
            StoreForwardEnvelope::new("m-retention", "bob", payload(b"ciphertext").unwrap(), 1_000, 1_500, 1)
                .unwrap()
        ),
        Err(StoreForwardError::Expired)
    );
    assert_eq!(
        queue.enqueue(
            StoreForwardEnvelope::new("m-fanout", "bob", payload(b"ciphertext").unwrap(), 1_000, 100, 3)
                .unwrap()
        ),
        Err(StoreForwardError::FanoutExhausted)
    );
    assert!(queue.is_empty());
}

#[test]
fn policy_rejects_retention_window_overrun_when_ttl_bound_allows_it() {
    let mut volunteer = VolunteerRelaySettings::enabled("relay-local");
    volunteer.max_fanout_per_message = 2;
    let policy = StoreForwardPolicy::new(&["bob"], 2_000, 1_000, volunteer);
    let mut queue = StoreForwardQueue::with_policy(policy);
    assert_eq!(
        queue.enqueue(
            StoreForwardEnvelope::new("m-retention", "bob", payload(b"ciphertext").unwrap(), 1_000, 1_500, 1)
                .unwrap()
        ),
        Err(StoreForwardError::RetentionWindowExceeded)
    );
}

#[test]
fn queue_bounds_duplicates_and_disabled_volunteer_setting() {
    let mut queue = StoreForwardQueue::with_policy(production_policy());
    let first =
        StoreForwardEnvelope::new("m1", "bob", payload(b"ciphertext-1").unwrap(), 1_000, 100, 1).unwrap();
    queue.enqueue(first.clone()).unwrap();
    assert_eq!(queue.enqueue(first), Err(StoreForwardError::DuplicateMessage));
    queue
        .enqueue(
            StoreForwardEnvelope::new("m2", "bob", payload(b"ciphertext-2").unwrap(), 1_000, 100, 1)
                .unwrap(),
        )
        .unwrap();
    assert_eq!(
        queue.enqueue(
            StoreForwardEnvelope::new("m3", "bob", payload(b"ciphertext-3").unwrap(), 1_000, 100, 1)
                .unwrap()
        ),
        Err(StoreForwardError::QueueFull)
    );

    let mut disabled = StoreForwardQueue::with_policy(StoreForwardPolicy::new(
        &["bob"],
        500,
        500,
        VolunteerRelaySettings::disabled("relay-local"),
    ));
    assert_eq!(
        disabled.enqueue(
            StoreForwardEnvelope::new("m-disabled", "bob", payload(b"ciphertext").unwrap(), 1_000, 100, 1)
                .unwrap()
        ),
        Err(StoreForwardError::VolunteerRelayDisabled)
    );
}

#[test]
fn volunteer_targets_require_fresh_store_forward_capabilities() {
    let queue = StoreForwardQueue::with_policy(production_policy());
    let stale = RelayCapabilityAdvertisement {
        expires_at_ms: 1_000,
        ..capability("stale", true)
    };
    let high_score = RelayCapabilityAdvertisement {
        peer_id: "high-score".to_owned(),
        contributed_bytes: 1,
        consumed_bytes: 10,
        observed_rtt_ms: 5,
        ..capability("high-score", true)
    };
    let candidates = vec![
        capability("relay-local", true),
        capability("no-store", false),
        stale,
        high_score,
        capability("good-a", true),
        capability("good-b", true),
    ];
    assert_eq!(
        queue.volunteer_targets(&candidates, 1_100),
        vec!["good-a".to_owned(), "good-b".to_owned()]
    );

    let mut disabled_policy = production_policy();
    disabled_policy.volunteer.enabled = false;
    let disabled = StoreForwardQueue::with_policy(disabled_policy);
    assert!(disabled.volunteer_targets(&candidates, 1_100).is_empty());
}

#[test]
fn drain_returns_envelopes_in_message_id_order_and_keeps_others() {
    let mut queue = StoreForwardQueue::new();
    for id in ["m3", "m1", "m2"] {
        queue
            .enqueue(StoreForwardEnvelope::new(id, "bob", payload(id.as_bytes()).unwrap(), 1_000, 500, 1).unwrap())
            .unwrap();
    }
    queue
        .enqueue(StoreForwardEnvelope::new("m0", "carol", payload(b"c").unwrap(), 1_000, 500, 1).unwrap())
        .unwrap();
    let delivered = queue.drain_for_recipient("bob", 1_200);
    let ids: Vec<&str> = delivered.iter().map(|e| e.message_id.as_str()).collect();
    assert_eq!(ids, vec!["m1", "m2", "m3"]);
    assert_eq!(queue.len(), 1);
    assert_eq!(queue.drain_for_recipient("carol", 1_600).len(), 0);
    assert!(queue.is_empty());
}

#[test]
fn envelope_ttl_fanout_and_plaintext_guard() {
    assert_eq!(
        StoreForwardEnvelope::new("m", "bob", payload(b"x").unwrap(), 1, 0, 1).err(),
        Some(StoreForwardError::Expired)
    );
    assert_eq!(
        StoreForwardEnvelope::new("m", "bob", payload(b"x").unwrap(), 1, 5, 0).err(),
        Some(StoreForwardError::FanoutExhausted)
    );
    let mut e = StoreForwardEnvelope::new("m", "bob", payload(b"x").unwrap(), u64::MAX - 1, 5, 1).unwrap();
    assert_eq!(e.expires_at_ms, u64::MAX);
    assert_eq!(e.ttl_ms(), 1);
    assert!(e.is_live(u64::MAX));
    assert_eq!(e.consume_fanout(), Ok(()));
    assert_eq!(e.fanout_remaining, 0);
    assert_eq!(e.consume_fanout(), Err(StoreForwardError::FanoutExhausted));
    let mut queue = StoreForwardQueue::new();
    let leaky = StoreForwardEnvelope::new("m", "bob", payload(b"hello world").unwrap(), 1_000, 10, 1).unwrap();
    assert_eq!(
        queue.enqueue_ciphertext_only(leaky.clone(), b"hello"),
        Err(StoreForwardError::VisiblePlaintext)
    );
    assert_eq!(queue.enqueue_ciphertext_only(leaky, b"goodbye"), Ok(()));
    assert_eq!(queue.len(), 1);
    assert_eq!(StoreForwardPolicy::default().max_ttl_ms, u64::MAX / 4);
    assert!(queue.policy().volunteer.enabled);
}

#[test]
fn converges_author_log_items_across_sixteen_peers() {
    let peers = (0..16).map(|idx| format!("peer-{idx}")).collect::<Vec<_>>();
    let peer_refs = peers.iter().map(String::as_str).collect::<Vec<_>>();
    let mut mesh = GossipMesh::new(&peer_refs);
    for (idx, peer) in peers.iter().enumerate() {
        mesh.insert(
            peer,
            GossipItem::new(idx as u32, 1, &format!("m-{idx}"), b"ciphertext"),
        );
    }
    assert!(!mesh.converged());
    assert!(mesh.round() > 0);
    assert!(mesh.converged());
    assert_eq!(mesh.known_count("peer-0"), Some(16));
}

#[test]
fn converged_mesh_round_adds_nothing() {
    let mut mesh = GossipMesh::new(&["a", "b"]);
    mesh.insert("a", GossipItem::new(1, 1, "m-1", b"c"));
    assert_eq!(mesh.round(), 1);
    assert_eq!(mesh.round(), 0);
    assert_eq!(mesh.known_count("b"), Some(1));
    assert_eq!(mesh.known_count("zed"), None);
    assert!(mesh.snapshot("zed").is_empty());
}

#[test]
fn gossip_node_merge_counts_only_new_items() {
    let mut node = GossipNode::new();
    assert!(node.is_empty());
    node.insert(GossipItem::new(1, 1, "m-1", b"c"));
    let inserted = node.merge(vec![
        GossipItem::new(1, 1, "m-1", b"c"),
        GossipItem::new(2, 1, "m-2", b"d"),
    ]);
    assert_eq!(inserted, 1);
    assert_eq!(node.len(), 2);
    assert_eq!(node.snapshot().len(), 2);
}
