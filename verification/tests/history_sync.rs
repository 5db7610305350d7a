use discrypt::author_log::AuthorLogEntry;
use discrypt::history_sync::{
    apply_history_sync_plan, build_history_sync_plan, HistorySyncApplyReport, HistorySyncItem,
    HistorySyncPolicy, HistorySyncQueue, HistorySyncRouteKind, PeerOverlayRouteSelection,
    PeerOverlayRouteSelectionAttempt, PeerOverlaySelectedRoute,
};
use discrypt::local_store::LocalStore;
use discrypt::peer_overlay::PeerOverlayCarrier;
use discrypt::transport::TransportError;

fn direct_selection() -> PeerOverlayRouteSelection {
    PeerOverlayRouteSelection {
        attempts: vec![PeerOverlayRouteSelectionAttempt {
            carrier: PeerOverlayCarrier::DirectWebRtcDataChannel,
            selected: true,
        }],
        selected: PeerOverlaySelectedRoute::DirectWebRtc {
            carrier: PeerOverlayCarrier::DirectWebRtcDataChannel,
        },
    }
}

fn peer_overlay_selection() -> PeerOverlayRouteSelection {
    PeerOverlayRouteSelection {
        attempts: vec![PeerOverlayRouteSelectionAttempt {
            carrier: PeerOverlayCarrier::PeerAssistedOverlay,
            selected: true,
        }],
        selected: PeerOverlaySelectedRoute::PeerAssistedOverlay,
    }
}

fn policy(epoch: u64) -> HistorySyncPolicy {
    HistorySyncPolicy::new(epoch, &["member-3"], &[1], 10_000, 20_000)
}

fn item(sequence: u64, epoch: u64, created_at_ms: u64) -> HistorySyncItem {
    HistorySyncItem::new(
        AuthorLogEntry::new_stable(
            1,
            "device-1",
            sequence,
            epoch,
            format!("ciphertext-history-{sequence}").into_bytes(),
        ),
        created_at_ms,
    )
}

#[test]
fn returning_member_receives_queued_ciphertext_history_on_reconnect() -> Result<(), TransportError>
{
    let policy = policy(9);
    let plan = build_history_sync_plan(
        &policy,
        "member-3",
        &direct_selection(),
        vec![item(1, 8, 15_000), item(2, 9, 19_000)],
    )?;
    assert_eq!(plan.route_kind, HistorySyncRouteKind::DirectWebRtc);
    assert!(plan.ciphertext_only);
    assert!(!plan.provider_application_relay_used);

    let mut queue = HistorySyncQueue::new(4);
    queue.enqueue(plan)?;
    assert_eq!(queue.len(), 1);
    let mut returning_store = LocalStore::default();
    let report = queue.drain_authorized_for_recipient("member-3", &policy, &mut returning_store)?;

    assert_eq!(
        report,
        HistorySyncApplyReport {
            plans_applied: 1,
            entries_inserted: 2,
            entries_duplicate: 0,
        }
    );
    assert!(queue.is_empty());
    assert_eq!(returning_store.author_log_for(1).len(), 2);
    assert!(returning_store
        .author_log_snapshot()
        .iter()
        .all(|entry| entry.ciphertext.starts_with(b"ciphertext-history-")));
    Ok(())
}

#[test]
fn peer_overlay_route_evidence_can_sync_authorized_history() -> Result<(), TransportError> {
    let policy = policy(9);
    let plan = build_history_sync_plan(
        &policy,
        "member-3",
        &peer_overlay_selection(),
        vec![item(1, 9, 19_000)],
    )?;
    let mut store = LocalStore::default();
    let report = apply_history_sync_plan(&policy, &plan, &mut store)?;

    assert_eq!(plan.route_kind, HistorySyncRouteKind::PeerAssistedOverlay);
    assert_eq!(report.entries_inserted, 1);
    assert!(!plan.provider_application_relay_used);
    Ok(())
}

#[test]
fn provider_application_relay_attempt_fails_closed() {
    let mut selection = direct_selection();
    selection.attempts.push(PeerOverlayRouteSelectionAttempt {
        carrier: PeerOverlayCarrier::ProviderApplicationRelay,
        selected: false,
    });

    assert_eq!(
        build_history_sync_plan(&policy(9), "member-3", &selection, vec![item(1, 9, 19_000)]),
        Err(TransportError::InvalidConnectivityPolicy(
            "peer overlay frames must not use providers as application relays".to_owned()
        ))
    );
}

#[test]
fn unauthorized_or_out_of_policy_history_is_rejected_without_mutating_store(
) -> Result<(), TransportError> {
    let selection = direct_selection();
    assert!(
        build_history_sync_plan(&policy(9), "member-4", &selection, vec![item(1, 9, 19_000)])
            .is_err()
    );
    assert!(build_history_sync_plan(
        &policy(9),
        "member-3",
        &selection,
        vec![HistorySyncItem::new(
            AuthorLogEntry::new_stable(2, "device-2", 1, 9, b"ciphertext".to_vec()),
            19_000,
        )]
    )
    .is_err());
    assert!(
        build_history_sync_plan(&policy(9), "member-3", &selection, vec![item(1, 10, 19_000)])
            .is_err()
    );
    assert!(
        build_history_sync_plan(&policy(9), "member-3", &selection, vec![item(1, 9, 1)]).is_err()
    );

    let accepted =
        build_history_sync_plan(&policy(9), "member-3", &selection, vec![item(1, 9, 19_000)])?;
    let mut removed_member_policy = policy(9);
    removed_member_policy
        .authorized_recipient_member_ids
        .retain(|member| member != "member-3");
    let mut store = LocalStore::default();
    assert!(apply_history_sync_plan(&removed_member_policy, &accepted, &mut store).is_err());
    assert!(store.author_log_snapshot().is_empty());
    Ok(())
}

#[test]
fn history_sync_merge_is_idempotent_and_rejects_forks() -> Result<(), TransportError> {
    let policy = policy(9);
    let selection = direct_selection();
    let plan =
        build_history_sync_plan(&policy, "member-3", &selection, vec![item(1, 9, 19_000)])?;
    let mut store = LocalStore::default();

    assert_eq!(
        apply_history_sync_plan(&policy, &plan, &mut store)?.entries_inserted,
        1
    );
    assert_eq!(
        apply_history_sync_plan(&policy, &plan, &mut store)?.entries_duplicate,
        1
    );

    let fork = HistorySyncItem::new(
        AuthorLogEntry::new_stable(1, "device-1", 1, 9, b"different-ciphertext".to_vec()),
        19_000,
    );
    let fork_plan = build_history_sync_plan(&policy, "member-3", &selection, vec![fork])?;
    assert_eq!(
        apply_history_sync_plan(&policy, &fork_plan, &mut store),
        Err(TransportError::InvalidConnectivityPolicy(
            "history sync storage merge failed: author log fork at author 1 device device-1 sequence 1"
                .to_owned()
        ))
    );
    assert_eq!(store.author_log_snapshot().len(), 1);
    Ok(())
}

#[test]
fn history_sync_failed_batch_does_not_partially_mutate_store() -> Result<(), TransportError> {
    let policy = policy(9);
    let selection = direct_selection();
    let mut store = LocalStore::default();
    let original =
        AuthorLogEntry::new_stable(1, "device-1", 2, 9, b"original-ciphertext".to_vec());
    store.append_sent(original.clone()).unwrap();

    let earlier = HistorySyncItem::new(
        AuthorLogEntry::new_stable(1, "device-1", 1, 9, b"new-ciphertext".to_vec()),
        19_000,
    );
    let fork = HistorySyncItem::new(
        AuthorLogEntry::new_stable(1, "device-1", 2, 9, b"different-ciphertext".to_vec()),
        19_000,
    );
    let plan = build_history_sync_plan(&policy, "member-3", &selection, vec![earlier, fork])?;

    assert!(apply_history_sync_plan(&policy, &plan, &mut store).is_err());
    assert_eq!(store.author_log_snapshot(), vec![original]);
    Ok(())
}

#[test]
fn queue_refuses_beyond_capacity_and_empty_plans() -> Result<(), TransportError> {
    let policy = policy(9);
    let selection = direct_selection();
    let plan = build_history_sync_plan(&policy, "member-3", &selection, vec![item(1, 9, 19_000)])?;
    let second =
        build_history_sync_plan(&policy, "member-3", &selection, vec![item(2, 9, 19_000)])?;
    let mut queue = HistorySyncQueue::new(0);
    queue.enqueue(plan)?;
    assert_eq!(
        queue.enqueue(second),
        Err(TransportError::InvalidConnectivityPolicy(
            "history sync queue is full".to_owned()
        ))
    );
    assert_eq!(queue.len(), 1);
    let mut store = LocalStore::default();
    assert!(queue
        .drain_authorized_for_recipient("member-9", &policy, &mut store)
        .is_err());
    assert_eq!(queue.len(), 1);
    Ok(())
}

#[test]
fn build_refuses_empty_items_and_future_or_expired_entries() {
    let policy = policy(9);
    let selection = direct_selection();
    assert_eq!(
        build_history_sync_plan(&policy, "member-3", &selection, vec![]),
        Err(TransportError::InvalidConnectivityPolicy(
            "history sync requires at least one ciphertext entry".to_owned()
        ))
    );
    assert_eq!(
        build_history_sync_plan(&policy, "member-3", &selection, vec![item(1, 9, 20_001)]),
        Err(TransportError::InvalidConnectivityPolicy(
            "history sync entry timestamp is in the future".to_owned()
        ))
    );
    assert_eq!(
        build_history_sync_plan(&policy, "member-3", &selection, vec![item(1, 9, 9_999)]),
        Err(TransportError::InvalidConnectivityPolicy(
            "history sync entry is outside retention policy".to_owned()
        ))
    );
    assert_eq!(
        build_history_sync_plan(&policy, " member-3", &selection, vec![item(1, 9, 19_000)]),
        Err(TransportError::InvalidConnectivityPolicy(
            "history sync recipient member id must be non-empty trimmed text up to 128 bytes"
                .to_owned()
        ))
    );
}

#[test]
fn policy_sorts_and_deduplicates_membership() {
    let policy = HistorySyncPolicy::new(3, &["b", "a", "b"], &[5, 1, 5], 0, 7);
    assert_eq!(policy.authorized_recipient_member_ids, vec!["a", "b"]);
    assert_eq!(policy.authorized_author_leaves, vec![1, 5]);
    assert_eq!(policy.retention_window_ms, 1);
}
