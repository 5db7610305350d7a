//! Per-group/channel route graph model for admitted peer transport intents.
//!
//! Data-only: records which admitted remote peers need direct or TURN-backed
//! WebRTC routes from the local admitted peer.
use vstd::prelude::*;
use vstd::utf8::*;
use crate::keyed::{KeyedList, key_index, lemma_key_index};
use crate::peer_overlay::{outcome, SignalingPeerId};
use crate::policy::{ConnectivityScopeLevel, ConversationScope, PolicyFault, reports};
use crate::session::TransportRoute;
use crate::text::{all_ws, clean_label, is_clean_label, is_trimmed, join2, str_equal, text};
use crate::transport::{Endpoint, FallbackLeg, RouteReport, TransportError, unconfigured_turn_endpoint};

verus! {

/// Serializable schema version for group route graph snapshots.
pub const ROUTE_GRAPH_SCHEMA_VERSION: u16 = 1;

fn policy_error(message: &str) -> (e: TransportError)
    ensures
        e matches TransportError::InvalidConnectivityPolicy(m) && m@ == message@,
{
    TransportError::InvalidConnectivityPolicy(text(message))
}

/// Group/channel scope for route graph edges.
#[derive(Debug, PartialEq, Eq)]
pub struct RouteGraphScope {
    /// Committed group/server scope.
    pub group: ConversationScope,
    /// Committed channel scope inherited from the group.
    pub channel: ConversationScope,
}

impl Clone for RouteGraphScope {
    fn clone(&self) -> (r: Self)
        ensures
            r == *self,
    {
        RouteGraphScope { group: self.group.clone(), channel: self.channel.clone() }
    }
}

pub open spec fn conn(m: Seq<char>) -> Option<PolicyFault> {
    Some(PolicyFault::Connectivity(m))
}

impl RouteGraphScope {
    pub open spec fn fault(&self) -> Option<PolicyFault> {
        if self.group.fault() is Some {
            self.group.fault()
        } else if self.channel.fault() is Some {
            self.channel.fault()
        } else if !(self.group.level is Group) {
            conn("route graph group scope must use group level"@)
        } else if !(self.channel.level is Channel) {
            conn("route graph channel scope must use channel level"@)
        } else if self.channel.parent_view() != Some(self.group.scope_id_commitment@) {
            conn("route graph channel scope must be parented by the graph group"@)
        } else {
            None
        }
    }

    /// Build and validate a route graph scope.
    pub fn new(group: ConversationScope, channel: ConversationScope) -> (r: Result<Self, TransportError>)
        ensures
            reports(r, (RouteGraphScope { group, channel }).fault()),
            r matches Ok(s) ==> s == (RouteGraphScope { group, channel }),
    {
        let scope = RouteGraphScope { group, channel };
        match scope.validate() {
            Err(e) => Err(e),
            Ok(()) => Ok(scope),
        }
    }

    /// Validate group/channel levels and parent linkage.
    pub fn validate(&self) -> (r: Result<(), TransportError>)
        ensures
            reports(r, self.fault()),
    {
        match self.group.validate() {
            Err(e) => return Err(e),
            Ok(()) => {},
        }
        match self.channel.validate() {
            Err(e) => return Err(e),
            Ok(()) => {},
        }
        if self.group.level != ConnectivityScopeLevel::Group {
            return Err(policy_error("route graph group scope must use group level"));
        }
        if self.channel.level != ConnectivityScopeLevel::Channel {
            return Err(policy_error("route graph channel scope must use channel level"));
        }
        let linked = match &self.channel.parent_scope_commitment {
            Some(p) => str_equal(p.as_str(), self.group.scope_id_commitment.as_str()),
            None => false,
        };
        if !linked {
            return Err(policy_error("route graph channel scope must be parented by the graph group"));
        }
        Ok(())
    }
}

/// Route intent for one admitted remote peer edge.
#[derive(Debug, PartialEq, Eq)]
pub enum RouteIntent {
    /// Direct WebRTC route should be established or is established for this peer.
    DirectWebRtc {
        /// Optional route evidence from a session or planner.
        route_report: Option<RouteReport>,
    },
    /// Configured TURN-backed WebRTC route should be established or is established.
    ConfiguredTurnWebRtc {
        /// Configured TURN endpoint selected for this edge.
        turn_endpoint: Endpoint,
        /// Optional route evidence from a session or planner.
        route_report: Option<RouteReport>,
    },
    /// Admitted peer edge exists, but route negotiation has not produced evidence yet.
    Pending {
        /// Redacted reason safe for status surfaces.
        reason: String,
    },
    /// Admitted peer edge exists, but no valid direct/TURN route is available.
    Unavailable {
        /// Redacted reason safe for status surfaces.
        reason: String,
    },
}

pub open spec fn same_report(a: Option<RouteReport>, b: Option<RouteReport>) -> bool {
    match (a, b) {
        (Some(x), Some(y)) => x.same(&y),
        (None, None) => true,
        _ => false,
    }
}

fn clone_report(r: &Option<RouteReport>) -> (c: Option<RouteReport>)
    ensures
        same_report(c, *r),
{
    match r {
        Some(x) => Some(x.clone()),
        None => None,
    }
}

/// Why a reason text is unacceptable, if it is.
pub open spec fn reason_fault(reason: Seq<char>) -> Option<Seq<char>> {
    if !is_clean_label(reason) || encode_utf8(reason).len() > 256 {
        Some("route graph reason must be non-empty trimmed text up to 256 bytes"@)
    } else {
        None
    }
}

/// Why a route report cannot back an intent expecting `expected`, if it cannot.
pub open spec fn report_fault(report: RouteReport, expected: FallbackLeg) -> Option<Seq<char>> {
    if report.selected != expected {
        Some("route graph route report selected leg does not match intent"@)
    } else if !report.is_honest_and_ordered() {
        Some("route graph route report must preserve direct/TURN ordering and ciphertext-only relay policy"@)
    } else {
        None
    }
}

fn validate_route_report(report: &RouteReport, expected: FallbackLeg) -> (r: Result<(), TransportError>)
    ensures
        outcome(r, report_fault(*report, expected)),
{
    if report.selected != expected {
        return Err(policy_error("route graph route report selected leg does not match intent"));
    }
    if !report.honest_and_ordered() {
        return Err(
            policy_error(
                "route graph route report must preserve direct/TURN ordering and ciphertext-only relay policy",
            ),
        );
    }
    Ok(())
}

/// Why a configured TURN endpoint is unacceptable, if it is.
pub open spec fn turn_endpoint_fault(e: Seq<char>) -> Option<Seq<char>> {
    if !is_clean_label(e) {
        Some("route graph configured TURN endpoint must be non-empty trimmed text"@)
    } else if e == unconfigured_turn_endpoint() {
        Some("configured TURN route intent requires a configured TURN endpoint"@)
    } else {
        None
    }
}

impl RouteIntent {
    /// Same variant and content, comparing reports by content.
    pub open spec fn same(&self, o: &Self) -> bool {
        match (self, o) {
            (RouteIntent::DirectWebRtc { route_report: a }, RouteIntent::DirectWebRtc { route_report: b }) => same_report(*a, *b),
            (
                RouteIntent::ConfiguredTurnWebRtc { turn_endpoint: e1, route_report: a },
                RouteIntent::ConfiguredTurnWebRtc { turn_endpoint: e2, route_report: b },
            ) => e1 == e2 && same_report(*a, *b),
            (RouteIntent::Pending { reason: a }, RouteIntent::Pending { reason: b }) => a == b,
            (RouteIntent::Unavailable { reason: a }, RouteIntent::Unavailable { reason: b }) => a == b,
            _ => false,
        }
    }

    /// Pending route intent for admitted peers awaiting per-peer negotiation.
    pub fn pending(reason: &str) -> (r: Result<Self, TransportError>)
        ensures
            outcome(r, reason_fault(reason@)),
            r matches Ok(i) ==> i matches RouteIntent::Pending { reason: x } && x@ == reason@,
    {
        if !clean_label(reason) || reason.as_bytes().len() > 256 {
            return Err(policy_error("route graph reason must be non-empty trimmed text up to 256 bytes"));
        }
        Ok(RouteIntent::Pending { reason: String::from_str(reason) })
    }

    /// Unavailable route intent for admitted peers without a valid direct/TURN route.
    pub fn unavailable(reason: &str) -> (r: Result<Self, TransportError>)
        ensures
            outcome(r, reason_fault(reason@)),
            r matches Ok(i) ==> i matches RouteIntent::Unavailable { reason: x } && x@ == reason@,
    {
        if !clean_label(reason) || reason.as_bytes().len() > 256 {
            return Err(policy_error("route graph reason must be non-empty trimmed text up to 256 bytes"));
        }
        Ok(RouteIntent::Unavailable { reason: String::from_str(reason) })
    }

    /// Direct WebRTC route intent with optional direct-route evidence.
    pub fn direct_webrtc(route_report: Option<RouteReport>) -> (r: Result<Self, TransportError>)
        ensures
            outcome(r, match route_report {
                Some(rep) => report_fault(rep, FallbackLeg::Stun),
                None => None,
            }),
            r matches Ok(i) ==> i == (RouteIntent::DirectWebRtc { route_report }),
    {
        match &route_report {
            Some(report) => match validate_route_report(report, FallbackLeg::Stun) {
                Err(e) => return Err(e),
                Ok(()) => {},
            },
            None => {},
        }
        Ok(RouteIntent::DirectWebRtc { route_report })
    }

    /// Configured TURN-backed WebRTC route intent with optional TURN-route evidence.
    pub fn configured_turn_webrtc(turn_endpoint: Endpoint, route_report: Option<RouteReport>) -> (r: Result<
        Self,
        TransportError,
    >)
        ensures
            outcome(r, if turn_endpoint_fault(turn_endpoint.0@) is Some {
                turn_endpoint_fault(turn_endpoint.0@)
            } else {
                match route_report {
                    Some(rep) => report_fault(rep, FallbackLeg::Turn),
                    None => None,
                }
            }),
            r matches Ok(i) ==> i == (RouteIntent::ConfiguredTurnWebRtc { turn_endpoint, route_report }),
    {
        if !clean_label(turn_endpoint.0.as_str()) {
            return Err(policy_error("route graph configured TURN endpoint must be non-empty trimmed text"));
        }
        if str_equal(turn_endpoint.0.as_str(), "turn:unconfigured.discrypt.invalid") {
            return Err(policy_error("configured TURN route intent requires a configured TURN endpoint"));
        }
        match &route_report {
            Some(report) => match validate_route_report(report, FallbackLeg::Turn) {
                Err(e) => return Err(e),
                Ok(()) => {},
            },
            None => {},
        }
        Ok(RouteIntent::ConfiguredTurnWebRtc { turn_endpoint, route_report })
    }

    /// True only for route intents that can become WebRTC delivery routes.
    pub fn is_connectable(&self) -> (b: bool)
        ensures
            b == (self is DirectWebRtc || self is ConfiguredTurnWebRtc),
    {
        match self {
            RouteIntent::DirectWebRtc { .. } | RouteIntent::ConfiguredTurnWebRtc { .. } => true,
            _ => false,
        }
    }

    /// Return the matching transport route, if this intent has one.
    pub fn transport_route(&self) -> (r: Option<TransportRoute>)
        ensures
            r == match self {
                RouteIntent::DirectWebRtc { .. } => Some(TransportRoute::Direct),
                RouteIntent::ConfiguredTurnWebRtc { .. } => Some(TransportRoute::TurnRelay),
                _ => None::<TransportRoute>,
            },
    {
        match self {
            RouteIntent::DirectWebRtc { .. } => Some(TransportRoute::Direct),
            RouteIntent::ConfiguredTurnWebRtc { .. } => Some(TransportRoute::TurnRelay),
            _ => None,
        }
    }
}

impl Clone for RouteIntent {
    fn clone(&self) -> (r: Self)
        ensures
            r.same(self),
    {
        match self {
            RouteIntent::DirectWebRtc { route_report } => RouteIntent::DirectWebRtc { route_report: clone_report(route_report) },
            RouteIntent::ConfiguredTurnWebRtc { turn_endpoint, route_report } => RouteIntent::ConfiguredTurnWebRtc {
                turn_endpoint: turn_endpoint.clone(),
                route_report: clone_report(route_report),
            },
            RouteIntent::Pending { reason } => RouteIntent::Pending { reason: reason.clone() },
            RouteIntent::Unavailable { reason } => RouteIntent::Unavailable { reason: reason.clone() },
        }
    }
}

/// Directed edge from the local admitted peer to one admitted remote peer.
#[derive(Debug, PartialEq, Eq)]
pub struct RouteGraphEdge {
    /// Local admitted peer/device id.
    pub local_peer_id: SignalingPeerId,
    /// Remote admitted peer/device id.
    pub remote_peer_id: SignalingPeerId,
    /// Current intended route state for this edge.
    pub intent: RouteIntent,
}

impl RouteGraphEdge {
    /// Build and validate a directed route graph edge.
    pub fn new(local_peer_id: SignalingPeerId, remote_peer_id: SignalingPeerId, intent: RouteIntent) -> (r: Result<
        Self,
        TransportError,
    >)
        ensures
            outcome(r, if local_peer_id.0@ == remote_peer_id.0@ {
                Some("route graph edge cannot target the local peer"@)
            } else {
                None
            }),
            r matches Ok(e) ==> e == (RouteGraphEdge { local_peer_id, remote_peer_id, intent }),
    {
        if str_equal(local_peer_id.0.as_str(), remote_peer_id.0.as_str()) {
            return Err(policy_error("route graph edge cannot target the local peer"));
        }
        Ok(RouteGraphEdge { local_peer_id, remote_peer_id, intent })
    }
}

/// First reason an admitted-remote list cannot form a graph for `local`,
/// scanning from `i` with `seen` holding the ids already used.
pub open spec fn remotes_fault(remotes: Seq<SignalingPeerId>, local: Seq<char>, i: int, seen: Set<Seq<char>>) -> Option<Seq<char>>
    decreases remotes.len() - i,
{
    if i < 0 || i >= remotes.len() {
        if seen.len() == 0 {
            Some("route graph requires at least one admitted remote peer"@)
        } else {
            None
        }
    } else if remotes[i].0@ == local {
        Some("route graph admitted remotes must not include the local peer"@)
    } else if seen.contains(remotes[i].0@) {
        Some("route graph admitted remote peers must be unique"@)
    } else {
        remotes_fault(remotes, local, i + 1, seen.insert(remotes[i].0@))
    }
}

/// Per-group/channel route graph from one local admitted peer to admitted remotes.
#[derive(Debug)]
pub struct GroupRouteGraph {
    /// Snapshot schema version.
    pub schema_version: u16,
    /// Group/channel scope for all edges.
    pub scope: RouteGraphScope,
    /// Local admitted peer/device id.
    pub local_peer_id: SignalingPeerId,
    /// Directed edges keyed by remote admitted peer id.
    pub edges: KeyedList<RouteGraphEdge>,
}

impl GroupRouteGraph {
    /// First rule a graph snapshot breaks, in checking order.
    pub open spec fn fault(&self) -> Option<PolicyFault> {
        if self.schema_version != ROUTE_GRAPH_SCHEMA_VERSION {
            conn("unsupported route graph schema version"@)
        } else if self.scope.fault() is Some {
            self.scope.fault()
        } else if self.edges.items@.len() == 0 {
            conn("route graph requires at least one admitted remote peer"@)
        } else {
            match edges_fault(self.edges.items@, self.local_peer_id.0@) {
                Some(m) => conn(m),
                None => None,
            }
        }
    }

    /// Build a graph with one edge for every admitted remote peer.
    pub fn new(
        scope: RouteGraphScope,
        local_peer_id: SignalingPeerId,
        admitted_remote_peers: Vec<SignalingPeerId>,
        default_intent: RouteIntent,
    ) -> (r: Result<Self, TransportError>)
        ensures
            reports(r, if scope.fault() is Some {
                scope.fault()
            } else {
                match remotes_fault(admitted_remote_peers@, local_peer_id.0@, 0, Set::empty()) {
                    Some(m) => conn(m),
                    None => None,
                }
            }),
            r matches Ok(g) ==> g.schema_version == ROUTE_GRAPH_SCHEMA_VERSION && g.scope == scope
                && g.local_peer_id == local_peer_id && g.edges.wf() && g.edges.items@.len()
                == admitted_remote_peers@.len() && forall|i: int| 0 <= i < admitted_remote_peers@.len()
                ==> (#[trigger] g.edges.items@[i]).0@ == admitted_remote_peers@[i].0@ && g.edges.items@[i].1.remote_peer_id
                == admitted_remote_peers@[i] && g.edges.items@[i].1.local_peer_id == local_peer_id
                && g.edges.items@[i].1.intent.same(&default_intent),
    {
        match scope.validate() {
            Err(e) => return Err(e),
            Ok(()) => {},
        }
        let mut edges: KeyedList<RouteGraphEdge> = KeyedList::new();
        let n = admitted_remote_peers.len();
        let ghost all = admitted_remote_peers@;
        let mut i: usize = 0;
        assert(edges.view_map().dom() =~= Set::<Seq<char>>::empty());
        proof {
            crate::keyed::lemma_view_map_len(&edges);
        }
        while i < n
            invariant
                n == all.len(),
                all == admitted_remote_peers@,
                scope.fault() is None,
                i <= n,
                edges.wf(),
                edges.items@.len() == i,
                edges.view_map().dom().finite(),
                edges.view_map().dom().len() == edges.items@.len(),
                remotes_fault(all, local_peer_id.0@, 0, Set::empty()) == remotes_fault(
                    all,
                    local_peer_id.0@,
                    i as int,
                    edges.view_map().dom(),
                ),
                forall|j: int| 0 <= j < i ==> (#[trigger] edges.items@[j]).0@ == all[j].0@ && edges.items@[j].1.remote_peer_id
                    == all[j] && edges.items@[j].1.local_peer_id == local_peer_id && edges.items@[j].1.intent.same(&default_intent),
            decreases n - i,
        {
            let remote = &admitted_remote_peers[i];
            if str_equal(remote.0.as_str(), local_peer_id.0.as_str()) {
                return Err(policy_error("route graph admitted remotes must not include the local peer"));
            }
            if edges.contains(remote.0.as_str()) {
                return Err(policy_error("route graph admitted remote peers must be unique"));
            }
            let edge = match RouteGraphEdge::new(local_peer_id.clone(), remote.clone(), default_intent.clone()) {
                Ok(e) => e,
                Err(e) => return Err(e),
            };
            let ghost before = edges;
            edges.push_new(remote.0.clone(), edge);
            proof {
                assert(edges.view_map().dom() =~= before.view_map().dom().insert(all[i as int].0@)) by {
                    assert forall|k: Seq<char>| edges.has(k) == (before.has(k) || k == all[i as int].0@) by {
                        if edges.has(k) {
                            let j = choose|j: int| 0 <= j < edges.items@.len() && (#[trigger] edges.items@[j]).0@ == k;
                            if j < before.items@.len() {
                                assert(before.items@[j] == edges.items@[j]);
                            }
                        }
                        if before.has(k) {
                            let j = choose|j: int| 0 <= j < before.items@.len() && (#[trigger] before.items@[j]).0@ == k;
                            assert(edges.items@[j] == before.items@[j]);
                        }
                        if k == all[i as int].0@ {
                            assert(edges.items@[before.items@.len() as int].0@ == k);
                        }
                    }
                }
                crate::keyed::lemma_view_map_len(&edges);
                assert forall|j: int| 0 <= j < i + 1 implies (#[trigger] edges.items@[j]).0@ == all[j].0@ && edges.items@[j].1.remote_peer_id
                    == all[j] && edges.items@[j].1.local_peer_id == local_peer_id && edges.items@[j].1.intent.same(&default_intent) by {
                    if j < i {
                        assert(edges.items@[j] == before.items@[j]);
                    }
                }
            }
            i = i + 1;
        }
        if edges.len() == 0 {
            return Err(policy_error("route graph requires at least one admitted remote peer"));
        }
        Ok(GroupRouteGraph { schema_version: ROUTE_GRAPH_SCHEMA_VERSION, scope, local_peer_id, edges })
    }

    /// Build the two-person graph shape used by pairwise flows.
    pub fn two_person(
        scope: RouteGraphScope,
        local_peer_id: SignalingPeerId,
        remote_peer_id: SignalingPeerId,
        intent: RouteIntent,
    ) -> (r: Result<Self, TransportError>)
        ensures
            reports(r, if scope.fault() is Some {
                scope.fault()
            } else {
                match remotes_fault(seq![remote_peer_id], local_peer_id.0@, 0, Set::empty()) {
                    Some(m) => conn(m),
                    None => None,
                }
            }),
            r matches Ok(g) ==> g.edges.items@.len() == 1 && g.edges.items@[0].0@ == remote_peer_id.0@,
    {
        let mut remotes: Vec<SignalingPeerId> = Vec::new();
        remotes.push(remote_peer_id);
        assert(remotes@ =~= seq![remote_peer_id]);
        Self::new(scope, local_peer_id, remotes, intent)
    }

    /// Number of admitted remote peer edges.
    pub fn edge_count(&self) -> (n: usize)
        ensures
            n == self.edges.items@.len(),
    {
        self.edges.len()
    }

    /// Return the edge for a remote admitted peer.
    pub fn edge_for(&self, remote_peer_id: &SignalingPeerId) -> (r: Option<&RouteGraphEdge>)
        requires
            self.edges.wf(),
        ensures
            match r {
                Some(e) => self.edges.has(remote_peer_id.0@) && *e == self.edges.at(remote_peer_id.0@),
                None => !self.edges.has(remote_peer_id.0@),
            },
    {
        self.edges.get(remote_peer_id.0.as_str())
    }

    /// Update one remote peer edge intent.
    pub fn set_intent(&mut self, remote_peer_id: &SignalingPeerId, intent: RouteIntent) -> (r: Result<(), TransportError>)
        requires
            old(self).edges.wf(),
        ensures
            final(self).edges.wf(),
            final(self).scope == old(self).scope,
            final(self).local_peer_id == old(self).local_peer_id,
            final(self).schema_version == old(self).schema_version,
            !old(self).edges.has(remote_peer_id.0@) ==> outcome(r, Some("route graph remote peer is not an admitted edge"@))
                && final(self).edges == old(self).edges,
            old(self).edges.has(remote_peer_id.0@) ==> r is Ok && final(self).edges.key_seq() == old(self).edges.key_seq()
                && final(self).edges.view_map() == old(self).edges.view_map().insert(
                remote_peer_id.0@,
                RouteGraphEdge { intent, ..old(self).edges.at(remote_peer_id.0@) },
            ),
    {
        match self.edges.position(remote_peer_id.0.as_str()) {
            Some(i) => {
                let (key, edge) = self.edges.remove_at(i);
                let updated = RouteGraphEdge {
                    local_peer_id: edge.local_peer_id,
                    remote_peer_id: edge.remote_peer_id,
                    intent,
                };
                let ghost mid = self.edges;
                self.edges.items.insert(i, (key, updated));
                proof {
                    let o = old(self).edges.items@;
                    let t = self.edges.items@;
                    assert(t =~= o.update(i as int, (o[i as int].0, updated)));
                    assert(crate::keyed::keys_unique(t)) by {
                        assert forall|a: int, b: int| 0 <= a < t.len() && 0 <= b < t.len() && a != b implies (#[trigger] t[a]).0@ != (#[trigger] t[b]).0@ by {
                            assert(t[a].0 == o[a].0 && t[b].0 == o[b].0);
                        }
                    }
                    lemma_key_index(o, remote_peer_id.0@);
                    lemma_key_index(t, remote_peer_id.0@);
                    assert(self.edges.key_seq() =~= old(self).edges.key_seq());
                    assert forall|k: Seq<char>| #[trigger] self.edges.has(k) == old(self).edges.has(k) by {
                        if self.edges.has(k) {
                            let j = choose|j: int| 0 <= j < t.len() && (#[trigger] t[j]).0@ == k;
                            assert(o[j].0@ == k);
                        }
                        if old(self).edges.has(k) {
                            let j = choose|j: int| 0 <= j < o.len() && (#[trigger] o[j]).0@ == k;
                            assert(t[j].0@ == k);
                        }
                    }
                    assert forall|k: Seq<char>| self.edges.has(k) implies #[trigger] self.edges.at(k) == (if k == remote_peer_id.0@ {
                        RouteGraphEdge { intent, ..old(self).edges.at(remote_peer_id.0@) }
                    } else {
                        old(self).edges.at(k)
                    }) by {
                        lemma_key_index(t, k);
                        lemma_key_index(o, k);
                        let j = key_index(t, k);
                        assert(o[j].0@ == k);
                    }
                    assert(self.edges.view_map() =~= old(self).edges.view_map().insert(
                        remote_peer_id.0@,
                        RouteGraphEdge { intent, ..old(self).edges.at(remote_peer_id.0@) },
                    ));
                }
                Ok(())
            },
            None => Err(policy_error("route graph remote peer is not an admitted edge")),
        }
    }

    /// Validate snapshot invariants after decoding from persisted state.
    pub fn validate(&self) -> (r: Result<(), TransportError>)
        ensures
            reports(r, self.fault()),
    {
        if self.schema_version != ROUTE_GRAPH_SCHEMA_VERSION {
            return Err(policy_error("unsupported route graph schema version"));
        }
        match self.scope.validate() {
            Err(e) => return Err(e),
            Ok(()) => {},
        }
        let s = &self.edges.items;
        let n = s.len();
        if n == 0 {
            return Err(policy_error("route graph requires at least one admitted remote peer"));
        }
        let local = self.local_peer_id.0.as_str();
        let mut i: usize = 0;
        assert(s@.skip(0) =~= s@);
        while i < n
            invariant
                n == s@.len(),
                i <= n,
                s@ == self.edges.items@,
                local@ == self.local_peer_id.0@,
                self.schema_version == ROUTE_GRAPH_SCHEMA_VERSION,
                self.scope.fault() is None,
                n > 0,
                edges_fault(s@, local@) == edges_fault(s@.skip(i as int), local@),
            decreases n - i,
        {
            let (key, edge) = (&s[i].0, &s[i].1);
            assert(s@.skip(i as int)[0] == s@[i as int]);
            if !str_equal(key.as_str(), edge.remote_peer_id.0.as_str()) {
                return Err(policy_error("route graph edge key must match remote peer id"));
            }
            if !str_equal(edge.local_peer_id.0.as_str(), local) {
                return Err(policy_error("route graph edge local peer must match graph local peer"));
            }
            if str_equal(edge.local_peer_id.0.as_str(), edge.remote_peer_id.0.as_str()) {
                return Err(policy_error("route graph edge cannot target the local peer"));
            }
            assert(s@.skip(i as int).drop_first() =~= s@.skip(i + 1));
            i = i + 1;
        }
        assert(s@.skip(n as int) =~= Seq::<(String, RouteGraphEdge)>::empty());
        Ok(())
    }
}

/// First inconsistent edge of a snapshot, in order.
pub open spec fn edges_fault(s: Seq<(String, RouteGraphEdge)>, local: Seq<char>) -> Option<Seq<char>>
    decreases s.len(),
{
    if s.len() == 0 {
        None
    } else if s[0].0@ != s[0].1.remote_peer_id.0@ {
        Some("route graph edge key must match remote peer id"@)
    } else if s[0].1.local_peer_id.0@ != local {
        Some("route graph edge local peer must match graph local peer"@)
    } else if s[0].1.local_peer_id.0@ == s[0].1.remote_peer_id.0@ {
        Some("route graph edge cannot target the local peer"@)
    } else {
        edges_fault(s.drop_first(), local)
    }
}

/// A graph built by `new` passes `validate`.
pub proof fn law_new_graph_validates(
    g: GroupRouteGraph,
    scope: RouteGraphScope,
    local: SignalingPeerId,
    remotes: Seq<SignalingPeerId>,
    default_intent: RouteIntent,
)
    requires
        scope.fault() is None,
        remotes_fault(remotes, local.0@, 0, Set::empty()) is None,
        g.schema_version == ROUTE_GRAPH_SCHEMA_VERSION,
        g.scope == scope,
        g.local_peer_id == local,
        g.edges.items@.len() == remotes.len(),
        forall|i: int| 0 <= i < remotes.len() ==> (#[trigger] g.edges.items@[i]).0@ == remotes[i].0@
            && g.edges.items@[i].1.remote_peer_id == remotes[i] && g.edges.items@[i].1.local_peer_id == local,
    ensures
        g.fault() is None,
{
    lemma_remotes_ok(remotes, local.0@, 0, Set::empty());
    lemma_edges_ok(g.edges.items@, local.0@, remotes);
}

proof fn lemma_remotes_ok(remotes: Seq<SignalingPeerId>, local: Seq<char>, i: int, seen: Set<Seq<char>>)
    requires
        0 <= i <= remotes.len(),
        remotes_fault(remotes, local, i, seen) is None,
    ensures
        forall|j: int| i <= j < remotes.len() ==> (#[trigger] remotes[j]).0@ != local,
        remotes.len() > 0 || seen.len() > 0,
    decreases remotes.len() - i,
{
    if i < remotes.len() {
        lemma_remotes_ok(remotes, local, i + 1, seen.insert(remotes[i].0@));
    }
}

proof fn lemma_edges_ok(s: Seq<(String, RouteGraphEdge)>, local: Seq<char>, remotes: Seq<SignalingPeerId>)
    requires
        s.len() == remotes.len(),
        forall|j: int| 0 <= j < remotes.len() ==> (#[trigger] remotes[j]).0@ != local,
        forall|i: int| 0 <= i < remotes.len() ==> (#[trigger] s[i]).0@ == remotes[i].0@ && s[i].1.remote_peer_id
            == remotes[i] && s[i].1.local_peer_id.0@ == local,
    ensures
        edges_fault(s, local) is None,
    decreases s.len(),
{
    if s.len() > 0 {
        assert(s[0].0@ == remotes[0].0@);
        lemma_edges_ok(s.drop_first(), local, remotes.drop_first());
    }
}

} // verus!
