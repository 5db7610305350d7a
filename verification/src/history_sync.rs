//! Authorized ciphertext history sync over selected route evidence.
//!
//! Callers supply current-epoch membership policy and already-selected route
//! evidence before ciphertext history can be queued or applied; applying a
//! plan merges its entries into the recipient's author log atomically.
use vstd::prelude::*;
use crate::author_log::{
    evs, eview, fault_text, law_remerge_is_idempotent, lemma_merge_ok_is_union, log_valid, merge_spec, reports_fault,
    AuthorLogEntry, AuthorLogFault, EntryView,
};
use crate::keyed::KeyedList;
use crate::local_store::LocalStore;
use crate::peer_overlay::{label_fault, outcome, validate_label, PeerOverlayCarrier};
use crate::policy::refused_with;
use crate::text::{contains_string, join2, peers_view, text};
use crate::text_set::{insert_sorted_unique, string_set, strings_sorted};
use crate::transport::TransportError;

verus! {

fn history_sync_error(message: &str) -> (e: TransportError)
    ensures
        e matches TransportError::InvalidConnectivityPolicy(m) && m@ == message@,
{
    TransportError::InvalidConnectivityPolicy(text(message))
}

/// Membership-derived policy for one history sync window.
#[derive(Debug, PartialEq, Eq)]
pub struct HistorySyncPolicy {
    /// Current membership epoch.
    pub current_epoch: u64,
    /// Current members allowed to receive history, sorted and distinct.
    pub authorized_recipient_member_ids: Vec<String>,
    /// Author leaves whose ciphertext history may be served, ascending and distinct.
    pub authorized_author_leaves: Vec<u32>,
    /// Retention window in milliseconds.
    pub retention_window_ms: u64,
    /// Sender clock in milliseconds.
    pub now_ms: u64,
}

/// Strictly ascending leaves.
pub open spec fn leaves_sorted(v: Seq<u32>) -> bool {
    forall|i: int, j: int| 0 <= i < j < v.len() ==> v[i] < v[j]
}

/// Insert `x` into an ascending list of distinct leaves, keeping it so.
fn insert_leaf(v: &mut Vec<u32>, x: u32)
    requires
        leaves_sorted(old(v)@),
    ensures
        leaves_sorted(final(v)@),
        final(v)@.to_set() == old(v)@.to_set().insert(x),
{
    let mut i: usize = 0;
    while i < v.len() && v[i] < x
        invariant
            i <= v@.len(),
            forall|j: int| 0 <= j < i ==> v@[j] < x,
        decreases v@.len() - i,
    {
        i = i + 1;
    }
    if i < v.len() && v[i] == x {
        proof {
            assert(v@.to_set() =~= v@.to_set().insert(x)) by {
                assert(v@.contains(x));
            }
        }
        return;
    }
    let ghost before = v@;
    v.insert(i, x);
    proof {
        assert(v@ == before.insert(i as int, x));
        assert forall|a: int, b: int| 0 <= a < b < v@.len() implies v@[a] < v@[b] by {
            if b < i {
            } else if a > i {
                assert(v@[a] == before[a - 1] && v@[b] == before[b - 1]);
            } else if a == i {
                assert(v@[b] == before[b - 1]);
                assert(before[i as int] >= x);
                assert(before[i as int] != x);
                if b - 1 > i {
                    assert(before[i as int] < before[b - 1]);
                }
            } else {
                if b == i {
                    assert(v@[a] == before[a]);
                } else {
                    assert(v@[a] == before[a] && v@[b] == before[b - 1]);
                }
            }
        }
        assert forall|y: u32| v@.to_set().contains(y) == before.to_set().insert(x).contains(y) by {
            if v@.contains(y) {
                let k = choose|k: int| 0 <= k < v@.len() && v@[k] == y;
                if k < i {
                    assert(before[k] == y);
                } else if k > i {
                    assert(before[k - 1] == y);
                }
            }
            if before.contains(y) {
                let k = choose|k: int| 0 <= k < before.len() && before[k] == y;
                if k < i {
                    assert(v@[k] == y);
                } else {
                    assert(v@[k + 1] == y);
                }
            }
            if y == x {
                assert(v@[i as int] == x);
            }
        }
        assert(v@.to_set() =~= before.to_set().insert(x));
    }
}

impl HistorySyncPolicy {
    /// Members allowed to receive history.
    pub open spec fn recipients(&self) -> Set<Seq<char>> {
        peers_view(self.authorized_recipient_member_ids@)
    }

    /// Author leaves whose history may be served.
    pub open spec fn leaves(&self) -> Set<u32> {
        self.authorized_author_leaves@.to_set()
    }

    /// Why `recipient` may not receive history, if it may not.
    pub open spec fn recipient_fault(&self, recipient: Seq<char>) -> Option<Seq<char>> {
        match label_fault(recipient, "history sync recipient member id"@) {
            Some(m) => Some(m),
            None => if !self.recipients().contains(recipient) {
                Some("history sync recipient is not authorized in current membership"@)
            } else {
                None
            },
        }
    }

    /// Why `item` may not be served, if it may not.
    pub open spec fn entry_fault(&self, item: HistorySyncItem) -> Option<Seq<char>> {
        if !self.leaves().contains(item.entry.author_leaf) {
            Some("history sync author leaf is not authorized for this group"@)
        } else if item.entry.epoch == 0 || item.entry.epoch > self.current_epoch {
            Some("history sync entry epoch is not covered by current membership policy"@)
        } else if item.entry.ciphertext@.len() == 0 {
            Some("history sync entry ciphertext must not be empty"@)
        } else if item.created_at_ms > self.now_ms {
            Some("history sync entry timestamp is in the future"@)
        } else if self.now_ms - item.created_at_ms > self.retention_window_ms {
            Some("history sync entry is outside retention policy"@)
        } else {
            None
        }
    }

    /// The first refused item, in order, if any.
    pub open spec fn items_fault(&self, items: Seq<HistorySyncItem>) -> Option<Seq<char>>
        decreases items.len(),
    {
        if items.len() == 0 {
            None
        } else {
            match self.items_fault(items.drop_last()) {
                Some(m) => Some(m),
                None => self.entry_fault(items.last()),
            }
        }
    }

    /// A policy from already verified membership state; a zero retention
    /// window is raised to one millisecond.
    pub fn new(
        current_epoch: u64,
        authorized_recipient_member_ids: &[&str],
        authorized_author_leaves: &[u32],
        retention_window_ms: u64,
        now_ms: u64,
    ) -> (r: Self)
        ensures
            r.current_epoch == current_epoch,
            r.recipients() == Set::new(|m: Seq<char>| exists|i: int| 0 <= i < authorized_recipient_member_ids@.len() && (#[trigger] authorized_recipient_member_ids@[i])@ == m),
            strings_sorted(r.authorized_recipient_member_ids@),
            r.leaves() == authorized_author_leaves@.to_set(),
            leaves_sorted(r.authorized_author_leaves@),
            r.retention_window_ms == if retention_window_ms == 0 { 1 } else { retention_window_ms },
            r.now_ms == now_ms,
    {
        let mut members: Vec<String> = Vec::new();
        let mut i: usize = 0;
        proof {
            assert(string_set(members@) =~= Set::<Seq<char>>::empty());
        }
        while i < authorized_recipient_member_ids.len()
            invariant
                i <= authorized_recipient_member_ids@.len(),
                strings_sorted(members@),
                string_set(members@) == Set::new(|m: Seq<char>| exists|k: int| 0 <= k < i && (#[trigger] authorized_recipient_member_ids@[k])@ == m),
            decreases authorized_recipient_member_ids@.len() - i,
        {
            let ghost before = string_set(members@);
            insert_sorted_unique(&mut members, authorized_recipient_member_ids[i]);
            proof {
                assert(string_set(members@) =~= Set::new(|m: Seq<char>| exists|k: int| 0 <= k < i + 1 && (#[trigger] authorized_recipient_member_ids@[k])@ == m)) by {
                    assert forall|m: Seq<char>| string_set(members@).contains(m) implies exists|k: int| 0 <= k < i + 1 && (#[trigger] authorized_recipient_member_ids@[k])@ == m by {
                        if m != authorized_recipient_member_ids@[i as int]@ {
                            assert(before.contains(m));
                        }
                    }
                }
            }
            i = i + 1;
        }
        let mut leaves: Vec<u32> = Vec::new();
        let mut j: usize = 0;
        proof {
            assert(leaves@.to_set() =~= authorized_author_leaves@.take(0).to_set());
        }
        while j < authorized_author_leaves.len()
            invariant
                j <= authorized_author_leaves@.len(),
                leaves_sorted(leaves@),
                leaves@.to_set() == authorized_author_leaves@.take(j as int).to_set(),
            decreases authorized_author_leaves@.len() - j,
        {
            insert_leaf(&mut leaves, authorized_author_leaves[j]);
            proof {
                assert(authorized_author_leaves@.take(j + 1) =~= authorized_author_leaves@.take(j as int).push(
                    authorized_author_leaves@[j as int],
                ));
                authorized_author_leaves@.take(j as int).lemma_push_to_set_commute(authorized_author_leaves@[j as int]);
            }
            j = j + 1;
        }
        proof {
            assert(authorized_author_leaves@.take(authorized_author_leaves@.len() as int) =~= authorized_author_leaves@);
            crate::text_set::lemma_string_set_is_peers_view(members@);
        }
        HistorySyncPolicy {
            current_epoch,
            authorized_recipient_member_ids: members,
            authorized_author_leaves: leaves,
            retention_window_ms: if retention_window_ms == 0 { 1 } else { retention_window_ms },
            now_ms,
        }
    }

    fn validate_recipient(&self, recipient_member_id: &str) -> (r: Result<(), TransportError>)
        ensures
            outcome(r, self.recipient_fault(recipient_member_id@)),
    {
        match validate_label(recipient_member_id, "history sync recipient member id") {
            Err(e) => {
                return Err(e);
            },
            Ok(()) => {},
        }
        if !contains_string(&self.authorized_recipient_member_ids, recipient_member_id) {
            return Err(history_sync_error("history sync recipient is not authorized in current membership"));
        }
        Ok(())
    }

    fn validate_entry(&self, item: &HistorySyncItem) -> (r: Result<(), TransportError>)
        ensures
            outcome(r, self.entry_fault(*item)),
    {
        let leaf = item.entry.author_leaf;
        let mut found = false;
        let mut i: usize = 0;
        while i < self.authorized_author_leaves.len()
            invariant
                i <= self.authorized_author_leaves@.len(),
                found == exists|k: int| 0 <= k < i && self.authorized_author_leaves@[k] == leaf,
            decreases self.authorized_author_leaves@.len() - i,
        {
            if self.authorized_author_leaves[i] == leaf {
                found = true;
            }
            i = i + 1;
        }
        if !found {
            return Err(history_sync_error("history sync author leaf is not authorized for this group"));
        }
        if item.entry.epoch == 0 || item.entry.epoch > self.current_epoch {
            return Err(history_sync_error("history sync entry epoch is not covered by current membership policy"));
        }
        if item.entry.ciphertext.len() == 0 {
            return Err(history_sync_error("history sync entry ciphertext must not be empty"));
        }
        if item.created_at_ms > self.now_ms {
            return Err(history_sync_error("history sync entry timestamp is in the future"));
        }
        if self.now_ms - item.created_at_ms > self.retention_window_ms {
            return Err(history_sync_error("history sync entry is outside retention policy"));
        }
        Ok(())
    }

    fn validate_items(&self, items: &Vec<HistorySyncItem>) -> (r: Result<(), TransportError>)
        ensures
            outcome(r, self.items_fault(items@)),
    {
        let mut i: usize = 0;
        while i < items.len()
            invariant
                i <= items@.len(),
                self.items_fault(items@.take(i as int)) is None,
            decreases items@.len() - i,
        {
            proof {
                assert(items@.take(i + 1).drop_last() =~= items@.take(i as int));
                lemma_items_fault_prefix(*self, items@, i + 1);
            }
            match self.validate_entry(&items[i]) {
                Err(e) => {
                    return Err(e);
                },
                Ok(()) => {},
            }
            i = i + 1;
        }
        proof {
            assert(items@.take(items@.len() as int) =~= items@);
        }
        Ok(())
    }
}

/// A refusal in a prefix is the refusal of the whole list.
proof fn lemma_items_fault_prefix(p: HistorySyncPolicy, items: Seq<HistorySyncItem>, n: int)
    requires
        0 < n <= items.len(),
        p.items_fault(items.take(n - 1)) is None,
    ensures
        p.items_fault(items.take(n)) == p.entry_fault(items[n - 1]),
        p.items_fault(items.take(n)) is Some ==> p.items_fault(items) == p.items_fault(items.take(n)),
    decreases items.len() - n,
{
    assert(items.take(n).drop_last() =~= items.take(n - 1));
    if n < items.len() && p.items_fault(items.take(n)) is Some {
        lemma_items_fault_stays(p, items, n, items.len() as int);
        assert(items.take(items.len() as int) =~= items);
    } else if n == items.len() {
        assert(items.take(n) =~= items);
    }
}

proof fn lemma_items_fault_stays(p: HistorySyncPolicy, items: Seq<HistorySyncItem>, n: int, m: int)
    requires
        0 <= n <= m <= items.len(),
        p.items_fault(items.take(n)) is Some,
    ensures
        p.items_fault(items.take(m)) == p.items_fault(items.take(n)),
    decreases m - n,
{
    if m > n {
        lemma_items_fault_stays(p, items, n, m - 1);
        assert(items.take(m).drop_last() =~= items.take(m - 1));
    }
    if m == items.len() {
        assert(items.take(m) =~= items);
    }
}

/// One ciphertext author-log entry offered for sync.
#[derive(Debug, PartialEq, Eq)]
pub struct HistorySyncItem {
    /// Append-only author-log entry.
    pub entry: AuthorLogEntry,
    /// Message creation time used for retention gating.
    pub created_at_ms: u64,
}

impl Clone for HistorySyncItem {
    fn clone(&self) -> (r: Self)
        ensures
            eview(r.entry) == eview(self.entry),
            r.created_at_ms == self.created_at_ms,
    {
        HistorySyncItem { entry: self.entry.clone(), created_at_ms: self.created_at_ms }
    }
}

impl HistorySyncItem {
    /// One history sync item.
    pub fn new(entry: AuthorLogEntry, created_at_ms: u64) -> (r: Self)
        ensures
            r.entry == entry,
            r.created_at_ms == created_at_ms,
    {
        HistorySyncItem { entry, created_at_ms }
    }
}

/// The entries of the items, in order.
pub open spec fn item_entries(items: Seq<HistorySyncItem>) -> Seq<EntryView> {
    items.map_values(|i: HistorySyncItem| eview(i.entry))
}

/// Route class proven for the sync plan.
#[derive(Clone, Copy, Debug, PartialEq, Eq, Structural)]
pub enum HistorySyncRouteKind {
    /// Direct WebRTC DataChannel route evidence.
    DirectWebRtc,
    /// Configured TURN-backed WebRTC route evidence.
    ConfiguredTurnBackedWebRtc,
    /// Peer-assisted overlay route evidence.
    PeerAssistedOverlay,
}

/// One attempted leg of a route selection, by its carrier.
#[derive(Clone, Copy, Debug, PartialEq, Eq, Structural)]
pub struct PeerOverlayRouteSelectionAttempt {
    /// Carrier the attempt used.
    pub carrier: PeerOverlayCarrier,
    /// Whether this attempt was the one selected.
    pub selected: bool,
}

/// The route a selection settled on.
#[derive(Clone, Copy, Debug, PartialEq, Eq, Structural)]
pub enum PeerOverlaySelectedRoute {
    /// A direct WebRTC pair, with the carrier of its evidence.
    DirectWebRtc { carrier: PeerOverlayCarrier },
    /// A configured TURN-backed pair, with the carrier of its evidence.
    ConfiguredTurnBackedWebRtc { carrier: PeerOverlayCarrier },
    /// A peer-assisted overlay relay route.
    PeerAssistedOverlay,
}

/// Route evidence that history sync relies on: every attempt and the selection.
#[derive(Debug, PartialEq, Eq)]
pub struct PeerOverlayRouteSelection {
    /// Attempts in the order they were made.
    pub attempts: Vec<PeerOverlayRouteSelectionAttempt>,
    /// The selected route.
    pub selected: PeerOverlaySelectedRoute,
}

/// Why route evidence cannot carry history, or the route class it proves.
pub open spec fn route_class(selection: PeerOverlayRouteSelection) -> Result<HistorySyncRouteKind, Seq<char>> {
    if exists|i: int| 0 <= i < selection.attempts@.len() && (#[trigger] selection.attempts@[i]).carrier is ProviderApplicationRelay {
        Err("peer overlay frames must not use providers as application relays"@)
    } else {
        match selection.selected {
            PeerOverlaySelectedRoute::DirectWebRtc { carrier } => if carrier is ProviderApplicationRelay {
                Err("peer overlay frames must not use providers as application relays"@)
            } else {
                Ok(HistorySyncRouteKind::DirectWebRtc)
            },
            PeerOverlaySelectedRoute::ConfiguredTurnBackedWebRtc { carrier } => if carrier is ProviderApplicationRelay {
                Err("peer overlay frames must not use providers as application relays"@)
            } else {
                Ok(HistorySyncRouteKind::ConfiguredTurnBackedWebRtc)
            },
            PeerOverlaySelectedRoute::PeerAssistedOverlay => Ok(HistorySyncRouteKind::PeerAssistedOverlay),
        }
    }
}

fn route_kind(selection: &PeerOverlayRouteSelection) -> (r: Result<HistorySyncRouteKind, TransportError>)
    ensures
        match route_class(*selection) {
            Ok(k) => r == Ok::<HistorySyncRouteKind, TransportError>(k),
            Err(m) => refused_with(r, m),
        },
{
    let mut i: usize = 0;
    while i < selection.attempts.len()
        invariant
            i <= selection.attempts@.len(),
            forall|k: int| 0 <= k < i ==> !((#[trigger] selection.attempts@[k]).carrier is ProviderApplicationRelay),
        decreases selection.attempts@.len() - i,
    {
        match selection.attempts[i].carrier.validate() {
            Err(e) => {
                return Err(e);
            },
            Ok(()) => {},
        }
        i = i + 1;
    }
    match selection.selected {
        PeerOverlaySelectedRoute::DirectWebRtc { carrier } => match carrier.validate() {
            Err(e) => Err(e),
            Ok(()) => Ok(HistorySyncRouteKind::DirectWebRtc),
        },
        PeerOverlaySelectedRoute::ConfiguredTurnBackedWebRtc { carrier } => match carrier.validate() {
            Err(e) => Err(e),
            Ok(()) => Ok(HistorySyncRouteKind::ConfiguredTurnBackedWebRtc),
        },
        PeerOverlaySelectedRoute::PeerAssistedOverlay => Ok(HistorySyncRouteKind::PeerAssistedOverlay),
    }
}

/// Authorized ciphertext history sync plan.
#[derive(Debug, PartialEq, Eq)]
pub struct HistorySyncPlan {
    /// Recipient member id proven by current membership policy.
    pub recipient_member_id: String,
    /// Route class selected by route evidence.
    pub route_kind: HistorySyncRouteKind,
    /// Ciphertext entries allowed by membership and retention policy.
    pub items: Vec<HistorySyncItem>,
    /// Evidence flag: providers were not used as application relays.
    pub provider_application_relay_used: bool,
    /// Evidence flag: entries remain ciphertext at this layer.
    pub ciphertext_only: bool,
    /// Honest limitation for release evidence and UI consumers.
    pub limitation: String,
}

/// Why a plan is malformed, if it is.
pub open spec fn plan_shape_fault(plan: HistorySyncPlan) -> Option<Seq<char>> {
    match label_fault(plan.recipient_member_id@, "history sync recipient member id"@) {
        Some(m) => Some(m),
        None => if plan.provider_application_relay_used {
            Some("history sync must not use providers as application relays"@)
        } else if !plan.ciphertext_only {
            Some("history sync plan must carry ciphertext-only entries"@)
        } else if plan.items@.len() == 0 {
            Some("history sync plan requires at least one item"@)
        } else {
            None
        },
    }
}

fn validate_plan_shape(plan: &HistorySyncPlan) -> (r: Result<(), TransportError>)
    ensures
        outcome(r, plan_shape_fault(*plan)),
{
    match validate_label(plan.recipient_member_id.as_str(), "history sync recipient member id") {
        Err(e) => {
            return Err(e);
        },
        Ok(()) => {},
    }
    if plan.provider_application_relay_used {
        return Err(history_sync_error("history sync must not use providers as application relays"));
    }
    if !plan.ciphertext_only {
        return Err(history_sync_error("history sync plan must carry ciphertext-only entries"));
    }
    if plan.items.len() == 0 {
        return Err(history_sync_error("history sync plan requires at least one item"));
    }
    Ok(())
}

/// Limitation carried by every plan.
pub open spec fn plan_limitation() -> Seq<char> {
    "local model history-sync evidence only; not production split-machine delivery proof"@
}

/// Why no plan can be built, if none can: the recipient, then the route
/// evidence, then an empty or refused item list.
pub open spec fn build_fault(
    policy: HistorySyncPolicy,
    recipient: Seq<char>,
    selection: PeerOverlayRouteSelection,
    items: Seq<HistorySyncItem>,
) -> Option<Seq<char>> {
    match policy.recipient_fault(recipient) {
        Some(m) => Some(m),
        None => match route_class(selection) {
            Err(m) => Some(m),
            Ok(_) => if items.len() == 0 {
                Some("history sync requires at least one ciphertext entry"@)
            } else {
                policy.items_fault(items)
            },
        },
    }
}

/// Build a history sync plan from current policy, route evidence, and ciphertext entries.
pub fn build_history_sync_plan(
    policy: &HistorySyncPolicy,
    recipient_member_id: &str,
    route_selection: &PeerOverlayRouteSelection,
    items: Vec<HistorySyncItem>,
) -> (r: Result<HistorySyncPlan, TransportError>)
    ensures
        outcome(r, build_fault(*policy, recipient_member_id@, *route_selection, items@)),
        r matches Ok(plan) ==> {
            &&& plan.recipient_member_id@ == recipient_member_id@
            &&& route_class(*route_selection) == Ok::<HistorySyncRouteKind, Seq<char>>(plan.route_kind)
            &&& plan.items@ == items@
            &&& !plan.provider_application_relay_used
            &&& plan.ciphertext_only
            &&& plan.limitation@ == plan_limitation()
            &&& plan_shape_fault(plan) is None
        },
{
    match policy.validate_recipient(recipient_member_id) {
        Err(e) => {
            return Err(e);
        },
        Ok(()) => {},
    }
    let route_kind = match route_kind(route_selection) {
        Err(e) => {
            return Err(e);
        },
        Ok(k) => k,
    };
    if items.len() == 0 {
        return Err(history_sync_error("history sync requires at least one ciphertext entry"));
    }
    match policy.validate_items(&items) {
        Err(e) => {
            return Err(e);
        },
        Ok(()) => {},
    }
    let plan = HistorySyncPlan {
        recipient_member_id: text(recipient_member_id),
        route_kind,
        items,
        provider_application_relay_used: false,
        ciphertext_only: true,
        limitation: text("local model history-sync evidence only; not production split-machine delivery proof"),
    };
    Ok(plan)
}

/// Result of applying one or more history sync plans.
#[derive(Clone, Copy, Debug, Default, PartialEq, Eq, Structural)]
pub struct HistorySyncApplyReport {
    /// Plans successfully applied.
    pub plans_applied: usize,
    /// Newly inserted author-log entries.
    pub entries_inserted: usize,
    /// Idempotent duplicates already present.
    pub entries_duplicate: usize,
}

/// Why a plan may not be applied under `policy`, if it may not.
pub open spec fn apply_fault(policy: HistorySyncPolicy, plan: HistorySyncPlan) -> Option<Seq<char>> {
    match plan_shape_fault(plan) {
        Some(m) => Some(m),
        None => match policy.recipient_fault(plan.recipient_member_id@) {
            Some(m) => Some(m),
            None => policy.items_fault(plan.items@),
        },
    }
}

/// Applying `plan` to an author log: the resulting log, and the inserted and
/// duplicate counts or the refusal. A refused plan leaves the log unchanged.
pub open spec fn apply_spec(policy: HistorySyncPolicy, log: Set<EntryView>, plan: HistorySyncPlan) -> (
    Set<EntryView>,
    Result<(nat, nat), Seq<char>>,
) {
    match apply_fault(policy, plan) {
        Some(m) => (log, Err(m)),
        None => {
            let merged = merge_spec(log, item_entries(plan.items@));
            match merged.1 {
                Ok(counts) => (merged.0, Ok(counts)),
                Err(f) => (log, Err("history sync storage merge failed: "@ + fault_text(f))),
            }
        },
    }
}

/// Syncing the same plan again is harmless: once a plan has been applied,
/// applying it again leaves the log as it is and reports every entry as a
/// duplicate.
pub proof fn law_reapplied_plan_changes_nothing(policy: HistorySyncPolicy, log: Set<EntryView>, plan: HistorySyncPlan)
    requires
        apply_spec(policy, log, plan).1 is Ok,
        log_valid(apply_spec(policy, log, plan).0),
    ensures
        apply_spec(policy, apply_spec(policy, log, plan).0, plan) == (
            apply_spec(policy, log, plan).0,
            Ok::<(nat, nat), Seq<char>>((0nat, plan.items@.len())),
        ),
{
    let es = item_entries(plan.items@);
    let after = apply_spec(policy, log, plan).0;
    lemma_merge_ok_is_union(log, es);
    assert forall|i: int| 0 <= i < es.len() implies after.contains(#[trigger] es[i]) by {
        assert(es.to_set().contains(es[i]));
    }
    law_remerge_is_idempotent(after, es);
}

fn plan_entries(items: &Vec<HistorySyncItem>) -> (r: Vec<AuthorLogEntry>)
    ensures
        evs(r@) == item_entries(items@),
{
    let mut r: Vec<AuthorLogEntry> = Vec::new();
    let mut i: usize = 0;
    while i < items.len()
        invariant
            i <= items@.len(),
            r@.len() == i,
            forall|k: int| 0 <= k < i ==> #[trigger] eview(r@[k]) == eview(items@[k].entry),
        decreases items@.len() - i,
    {
        r.push(items[i].entry.clone());
        i = i + 1;
    }
    assert(evs(r@) =~= item_entries(items@));
    r
}

/// Apply a validated history sync plan to the recipient's store: the plan's
/// shape, recipient and items are checked again, then its entries are merged
/// atomically.
pub fn apply_history_sync_plan(
    policy: &HistorySyncPolicy,
    plan: &HistorySyncPlan,
    recipient_store: &mut LocalStore,
) -> (r: Result<HistorySyncApplyReport, TransportError>)
    requires
        old(recipient_store).wf(),
    ensures
        final(recipient_store).wf(),
        final(recipient_store).cache().same(old(recipient_store).cache()),
        final(recipient_store).tombstones() == old(recipient_store).tombstones(),
        final(recipient_store).log() == apply_spec(*policy, old(recipient_store).log(), *plan).0,
        match apply_spec(*policy, old(recipient_store).log(), *plan).1 {
            Ok(counts) => r matches Ok(rep) && rep.plans_applied == 1 && rep.entries_inserted == counts.0
                && rep.entries_duplicate == counts.1,
            Err(m) => refused_with(r, m),
        },
{
    proof {
        old(recipient_store).lemma_log_valid();
    }
    match validate_plan_shape(plan) {
        Err(e) => {
            return Err(e);
        },
        Ok(()) => {},
    }
    match policy.validate_recipient(plan.recipient_member_id.as_str()) {
        Err(e) => {
            return Err(e);
        },
        Ok(()) => {},
    }
    match policy.validate_items(&plan.items) {
        Err(e) => {
            return Err(e);
        },
        Ok(()) => {},
    }
    let entries = plan_entries(&plan.items);
    match recipient_store.merge_author_logs_atomic(entries) {
        Ok(report) => Ok(
            HistorySyncApplyReport {
                plans_applied: 1,
                entries_inserted: report.inserted,
                entries_duplicate: report.duplicates,
            },
        ),
        Err(error) => {
            let detail = error.message();
            proof {
                let f = merge_spec(old(recipient_store).log(), item_entries(plan.items@)).1->Err_0;
                assert(reports_fault(Err::<(), crate::author_log::AuthorLogError>(error), f));
            }
            Err(TransportError::InvalidConnectivityPolicy(join2("history sync storage merge failed: ", detail.as_str())))
        },
    }
}

/// Number of plans held under all recipients.
pub open spec fn total(s: Seq<(String, Vec<HistorySyncPlan>)>) -> nat
    decreases s.len(),
{
    if s.len() == 0 {
        0
    } else {
        total(s.drop_last()) + s.last().1@.len()
    }
}

proof fn lemma_total_remove(s: Seq<(String, Vec<HistorySyncPlan>)>, i: int)
    requires
        0 <= i < s.len(),
    ensures
        total(s) == total(s.remove(i)) + s[i].1@.len(),
    decreases s.len(),
{
    if i == s.len() - 1 {
        assert(s.remove(i) =~= s.drop_last());
    } else {
        lemma_total_remove(s.drop_last(), i);
        assert(s.remove(i).drop_last() =~= s.drop_last().remove(i));
        assert(s.remove(i).last() == s.last());
    }
}

proof fn lemma_total_positive(s: Seq<(String, Vec<HistorySyncPlan>)>)
    requires
        s.len() > 0,
        forall|i: int| 0 <= i < s.len() ==> (#[trigger] s[i]).1@.len() > 0,
    ensures
        total(s) > 0,
{
    assert(s.last() == s[s.len() - 1]);
}

/// Applying `plans` in order until one is refused: the resulting log, and the
/// summed report (each sum capped at the largest `usize`) or the refusal.
pub open spec fn drain_spec(policy: HistorySyncPolicy, log: Set<EntryView>, plans: Seq<HistorySyncPlan>) -> (
    Set<EntryView>,
    Result<(nat, nat, nat), Seq<char>>,
)
    decreases plans.len(),
{
    if plans.len() == 0 {
        (log, Ok((0, 0, 0)))
    } else {
        let prev = drain_spec(policy, log, plans.drop_last());
        match prev.1 {
            Err(m) => prev,
            Ok(sums) => {
                let applied = apply_spec(policy, prev.0, plans.last());
                match applied.1 {
                    Err(m) => (applied.0, Err(m)),
                    Ok(counts) => (
                        applied.0,
                        Ok((capped(sums.0 + 1), capped(sums.1 + counts.0), capped(sums.2 + counts.1))),
                    ),
                }
            },
        }
    }
}

/// `n`, or the largest `usize` when `n` is larger.
pub open spec fn capped(n: nat) -> nat {
    if n > usize::MAX {
        usize::MAX as nat
    } else {
        n
    }
}

/// Bounded pending queue for offline/reconnect history sync.
#[derive(Debug)]
pub struct HistorySyncQueue {
    max_pending_plans: usize,
    pending: KeyedList<Vec<HistorySyncPlan>>,
}

impl HistorySyncQueue {
    /// The queue's internal consistency.
    pub closed spec fn wf(&self) -> bool {
        &&& self.pending.wf()
        &&& self.max_pending_plans >= 1
        &&& total(self.pending.items@) <= self.max_pending_plans
        &&& forall|i: int| 0 <= i < self.pending.items@.len() ==> (#[trigger] self.pending.items@[i]).1@.len() > 0
    }

    /// Most plans the queue holds.
    pub closed spec fn capacity(&self) -> nat {
        self.max_pending_plans as nat
    }

    /// Plans queued for `recipient`, oldest first.
    pub closed spec fn pending_for(&self, recipient: Seq<char>) -> Seq<HistorySyncPlan> {
        if self.pending.has(recipient) {
            self.pending.at(recipient)@
        } else {
            Seq::empty()
        }
    }

    /// Plans queued for all recipients.
    pub closed spec fn count(&self) -> nat {
        total(self.pending.items@)
    }

    /// An empty queue; a capacity of zero is raised to one.
    pub fn new(max_pending_plans: usize) -> (r: Self)
        ensures
            r.wf(),
            r.capacity() == if max_pending_plans == 0 { 1 } else { max_pending_plans },
            r.count() == 0,
            forall|t: Seq<char>| #[trigger] r.pending_for(t) == Seq::<HistorySyncPlan>::empty(),
    {
        HistorySyncQueue {
            max_pending_plans: if max_pending_plans == 0 { 1 } else { max_pending_plans },
            pending: KeyedList::new(),
        }
    }

    /// Number of pending plans.
    pub fn len(&self) -> (n: usize)
        requires
            self.wf(),
        ensures
            n == self.count(),
    {
        let mut n: usize = 0;
        let mut i: usize = 0;
        while i < self.pending.items.len()
            invariant
                self.wf(),
                i <= self.pending.items@.len(),
                n == total(self.pending.items@.take(i as int)),
            decreases self.pending.items@.len() - i,
        {
            proof {
                assert(self.pending.items@.take(i + 1).drop_last() =~= self.pending.items@.take(i as int));
                lemma_total_prefix(self.pending.items@, i + 1);
            }
            n = n + self.pending.items[i].1.len();
            i = i + 1;
        }
        proof {
            assert(self.pending.items@.take(i as int) =~= self.pending.items@);
        }
        n
    }

    /// True when no plans are queued.
    pub fn is_empty(&self) -> (b: bool)
        requires
            self.wf(),
        ensures
            b == (self.count() == 0),
    {
        proof {
            if self.pending.items@.len() > 0 {
                lemma_total_positive(self.pending.items@);
            }
        }
        self.pending.items.len() == 0
    }

    /// Queue one validated plan for a currently offline recipient.
    pub fn enqueue(&mut self, plan: HistorySyncPlan) -> (r: Result<(), TransportError>)
        requires
            old(self).wf(),
        ensures
            final(self).wf(),
            final(self).capacity() == old(self).capacity(),
            plan_shape_fault(plan) matches Some(m) ==> refused_with(r, m) && *final(self) == *old(self),
            plan_shape_fault(plan) is None && old(self).count() >= old(self).capacity() ==> refused_with(
                r,
                "history sync queue is full"@,
            ) && *final(self) == *old(self),
            plan_shape_fault(plan) is None && old(self).count() < old(self).capacity() ==> {
                &&& r is Ok
                &&& final(self).count() == old(self).count() + 1
                &&& final(self).pending_for(plan.recipient_member_id@) == old(self).pending_for(
                    plan.recipient_member_id@,
                ).push(plan)
                &&& forall|t: Seq<char>| t != plan.recipient_member_id@ ==> #[trigger] final(self).pending_for(t) == old(
                    self,
                ).pending_for(t)
            },
    {
        match validate_plan_shape(&plan) {
            Err(e) => {
                return Err(e);
            },
            Ok(()) => {},
        }
        let pending_count = self.len();
        if pending_count >= self.max_pending_plans {
            return Err(history_sync_error("history sync queue is full"));
        }
        let key = plan.recipient_member_id.clone();
        let pos = self.pending.position(key.as_str());
        let ghost p: int = match pos {
            Some(i) => i as int,
            None => -1,
        };
        let ghost start = self.pending;
        let mut queue: Vec<HistorySyncPlan> = match pos {
            Some(i) => {
                proof {
                    lemma_total_remove(start.items@, i as int);
                }
                let (_k, q) = self.pending.remove_at(i);
                q
            },
            None => Vec::new(),
        };
        queue.push(plan);
        let ghost mid = self.pending;
        self.pending.push_new(key, queue);
        proof {
            let topic = plan.recipient_member_id@;
            assert(self.pending.items@.drop_last() =~= mid.items@);
            crate::keyed::lemma_key_index(start.items@, topic);
            assert forall|i: int| 0 <= i < self.pending.items@.len() implies (#[trigger] self.pending.items@[i]).1@.len() > 0 by {
                if i < mid.items@.len() {
                    if p >= 0 && i >= p {
                        assert(mid.items@[i] == start.items@[i + 1]);
                    } else {
                        assert(mid.items@[i] == start.items@[i]);
                    }
                }
            }
            assert forall|t: Seq<char>| t != topic implies #[trigger] self.pending_for(t) == old(self).pending_for(t) by {
                crate::keyed::lemma_key_index(start.items@, t);
                crate::keyed::lemma_key_index(mid.items@, t);
                crate::keyed::lemma_key_index(self.pending.items@, t);
                if start.has(t) {
                    let j = crate::keyed::key_index(start.items@, t);
                    if p >= 0 && j > p {
                        assert(mid.items@[j - 1] == start.items@[j]);
                        assert(self.pending.items@[j - 1] == mid.items@[j - 1]);
                    } else {
                        assert(mid.items@[j] == start.items@[j]);
                        assert(self.pending.items@[j] == mid.items@[j]);
                    }
                }
                if self.pending.has(t) {
                    let j = crate::keyed::key_index(self.pending.items@, t);
                    assert(j < mid.items@.len());
                    if p >= 0 && j >= p {
                        assert(mid.items@[j] == start.items@[j + 1]);
                    } else {
                        assert(mid.items@[j] == start.items@[j]);
                    }
                }
            }
            assert(self.pending.items@[self.pending.items@.len() - 1].0@ == topic);
            crate::keyed::lemma_key_index(self.pending.items@, topic);
            if p >= 0 {
                assert(start.at(topic) == start.items@[p].1);
            }
        }
        Ok(())
    }

    /// Take every plan queued for `recipient_member_id` and apply them in
    /// order to the recipient's store after checking the recipient against
    /// current policy; the first refused plan ends the drain with its error.
    pub fn drain_authorized_for_recipient(
        &mut self,
        recipient_member_id: &str,
        policy: &HistorySyncPolicy,
        recipient_store: &mut LocalStore,
    ) -> (r: Result<HistorySyncApplyReport, TransportError>)
        requires
            old(self).wf(),
            old(recipient_store).wf(),
        ensures
            final(self).wf(),
            final(recipient_store).wf(),
            final(self).capacity() == old(self).capacity(),
            final(recipient_store).cache().same(old(recipient_store).cache()),
            final(recipient_store).tombstones() == old(recipient_store).tombstones(),
            policy.recipient_fault(recipient_member_id@) matches Some(m) ==> refused_with(r, m) && *final(self) == *old(
                self,
            ) && final(recipient_store).log() == old(recipient_store).log(),
            policy.recipient_fault(recipient_member_id@) is None ==> {
                let outcome = drain_spec(*policy, old(recipient_store).log(), old(self).pending_for(recipient_member_id@));
                &&& final(self).pending_for(recipient_member_id@) == Seq::<HistorySyncPlan>::empty()
                &&& forall|t: Seq<char>| t != recipient_member_id@ ==> #[trigger] final(self).pending_for(t) == old(
                    self,
                ).pending_for(t)
                &&& final(self).count() == old(self).count() - old(self).pending_for(recipient_member_id@).len()
                &&& final(recipient_store).log() == outcome.0
                &&& match outcome.1 {
                    Ok(sums) => r matches Ok(rep) && rep.plans_applied == sums.0 && rep.entries_inserted == sums.1
                        && rep.entries_duplicate == sums.2,
                    Err(m) => refused_with(r, m),
                }
            },
    {
        proof {
            old(recipient_store).lemma_log_valid();
        }
        match policy.validate_recipient(recipient_member_id) {
            Err(e) => {
                return Err(e);
            },
            Ok(()) => {},
        }
        let plans = self.take(recipient_member_id);
        let ghost after_take = *self;
        let ghost log0 = recipient_store.log();
        let mut report = HistorySyncApplyReport { plans_applied: 0, entries_inserted: 0, entries_duplicate: 0 };
        let mut i: usize = 0;
        proof {
            assert(plans@.take(0) =~= Seq::<HistorySyncPlan>::empty());
        }
        while i < plans.len()
            invariant
                *self == after_take,
                after_take.wf(),
                after_take.capacity() == old(self).capacity(),
                after_take.pending_for(recipient_member_id@) == Seq::<HistorySyncPlan>::empty(),
                forall|t: Seq<char>| t != recipient_member_id@ ==> #[trigger] after_take.pending_for(t) == old(
                    self,
                ).pending_for(t),
                after_take.count() == old(self).count() - old(self).pending_for(recipient_member_id@).len(),
                plans@ == old(self).pending_for(recipient_member_id@),
                policy.recipient_fault(recipient_member_id@) is None,
                i <= plans@.len(),
                recipient_store.wf(),
                recipient_store.cache().same(old(recipient_store).cache()),
                recipient_store.tombstones() == old(recipient_store).tombstones(),
                log0 == old(recipient_store).log(),
                drain_spec(*policy, log0, plans@.take(i as int)).0 == recipient_store.log(),
                drain_spec(*policy, log0, plans@.take(i as int)).1 == Ok::<(nat, nat, nat), Seq<char>>(
                    (report.plans_applied as nat, report.entries_inserted as nat, report.entries_duplicate as nat),
                ),
            decreases plans@.len() - i,
        {
            proof {
                assert(plans@.take(i + 1).drop_last() =~= plans@.take(i as int));
                assert(plans@.take(i + 1).last() == plans@[i as int]);
            }
            let applied = apply_history_sync_plan(policy, &plans[i], recipient_store);
            match applied {
                Err(e) => {
                    proof {
                        lemma_drain_stops(*policy, log0, plans@, i as int + 1);
                    }
                    return Err(e);
                },
                Ok(a) => {
                    report = HistorySyncApplyReport {
                        plans_applied: report.plans_applied.saturating_add(a.plans_applied),
                        entries_inserted: report.entries_inserted.saturating_add(a.entries_inserted),
                        entries_duplicate: report.entries_duplicate.saturating_add(a.entries_duplicate),
                    };
                },
            }
            i = i + 1;
        }
        proof {
            assert(plans@.take(plans@.len() as int) =~= plans@);
        }
        Ok(report)
    }

    fn take(&mut self, recipient: &str) -> (r: Vec<HistorySyncPlan>)
        requires
            old(self).wf(),
        ensures
            final(self).wf(),
            final(self).capacity() == old(self).capacity(),
            r@ == old(self).pending_for(recipient@),
            final(self).pending_for(recipient@) == Seq::<HistorySyncPlan>::empty(),
            forall|t: Seq<char>| t != recipient@ ==> #[trigger] final(self).pending_for(t) == old(self).pending_for(t),
            final(self).count() == old(self).count() - old(self).pending_for(recipient@).len(),
    {
        match self.pending.position(recipient) {
            Some(i) => {
                proof {
                    lemma_total_remove(self.pending.items@, i as int);
                }
                let (_k, q) = self.pending.remove_at(i);
                proof {
                    crate::keyed::lemma_key_index(old(self).pending.items@, recipient@);
                    assert forall|j: int| 0 <= j < self.pending.items@.len() implies (#[trigger] self.pending.items@[j]).1@.len() > 0 by {
                        if j >= i {
                            assert(self.pending.items@[j] == old(self).pending.items@[j + 1]);
                        } else {
                            assert(self.pending.items@[j] == old(self).pending.items@[j]);
                        }
                    }
                    assert forall|t: Seq<char>| t != recipient@ implies #[trigger] self.pending_for(t) == old(self).pending_for(t) by {
                        crate::keyed::lemma_key_index(old(self).pending.items@, t);
                        crate::keyed::lemma_key_index(self.pending.items@, t);
                        if old(self).pending.has(t) {
                            let j = crate::keyed::key_index(old(self).pending.items@, t);
                            if j > i {
                                assert(self.pending.items@[j - 1] == old(self).pending.items@[j]);
                            } else {
                                assert(self.pending.items@[j] == old(self).pending.items@[j]);
                            }
                        }
                        if self.pending.has(t) {
                            let j = crate::keyed::key_index(self.pending.items@, t);
                            if j >= i {
                                assert(self.pending.items@[j] == old(self).pending.items@[j + 1]);
                            } else {
                                assert(self.pending.items@[j] == old(self).pending.items@[j]);
                            }
                        }
                    }
                    assert(!self.pending.has(recipient@)) by {
                        if self.pending.has(recipient@) {
                            let j = choose|j: int| 0 <= j < self.pending.items@.len() && (#[trigger] self.pending.items@[j]).0@ == recipient@;
                            if j >= i {
                                assert(old(self).pending.items@[j + 1].0@ == recipient@);
                            } else {
                                assert(old(self).pending.items@[j].0@ == recipient@);
                            }
                        }
                    }
                }
                q
            },
            None => Vec::new(),
        }
    }
}

proof fn lemma_total_prefix(s: Seq<(String, Vec<HistorySyncPlan>)>, n: int)
    requires
        0 < n <= s.len(),
    ensures
        total(s.take(n)) == total(s.take(n - 1)) + s[n - 1].1@.len(),
        total(s.take(n)) <= total(s),
    decreases s.len() - n,
{
    assert(s.take(n).drop_last() =~= s.take(n - 1));
    if n < s.len() {
        lemma_total_prefix(s, n + 1);
    } else {
        assert(s.take(n) =~= s);
    }
}

/// Once a drain is refused, later plans do not change its outcome.
proof fn lemma_drain_stops(policy: HistorySyncPolicy, log: Set<EntryView>, plans: Seq<HistorySyncPlan>, n: int)
    requires
        0 < n <= plans.len(),
        drain_spec(policy, log, plans.take(n)).1 is Err,
    ensures
        drain_spec(policy, log, plans) == drain_spec(policy, log, plans.take(n)),
    decreases plans.len() - n,
{
    if n < plans.len() {
        assert(plans.take(n + 1).drop_last() =~= plans.take(n));
        lemma_drain_stops(policy, log, plans, n + 1);
    } else {
        assert(plans.take(n) =~= plans);
    }
}

} // verus!
