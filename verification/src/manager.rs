//! Integer-valued decisions of the live overlay manager: observation checks,
//! churn damping, media concealment, and relay capacity checks.
use vstd::prelude::*;
use crate::capability::{CapabilityAdvertisementBook, CapabilityAdvertisementError, RelayCapabilityAdvertisement};
use crate::keyed::KeyedList;
use crate::text::{all_ws, contains_string, join2, only_ws, peers_view, str_equal, text, unique_strings};
use crate::topology::{
    path_view, reroute_after_failure, reroute_outcome, route_outcome, FailoverDecision, RelayLinks, RelayRoute,
    TopologyError, MAX_RELAY_HOPS,
};

verus! {

/// Runtime measurements collected for one potential relay peer.
#[derive(Debug, PartialEq, Eq)]
pub struct RelayRuntimeObservation {
    /// Stable peer identifier from the authenticated overlay peer set.
    pub peer_id: String,
    /// Last measured round-trip latency in milliseconds.
    pub latency_ms: u32,
    /// Successful relay health probes in the current scoring window.
    pub successful_probes: u32,
    /// Failed relay health probes in the current scoring window.
    pub failed_probes: u32,
    /// Estimated local battery/CPU/network cost in basis points.
    pub battery_cost_bps: u16,
    /// Relay bytes this peer has contributed in the current accounting window.
    pub contributed_bytes: u64,
    /// Relay bytes this peer has consumed in the current accounting window.
    pub consumed_bytes: u64,
}

impl Clone for RelayRuntimeObservation {
    fn clone(&self) -> (r: Self)
        ensures
            r == *self,
    {
        RelayRuntimeObservation {
            peer_id: self.peer_id.clone(),
            latency_ms: self.latency_ms,
            successful_probes: self.successful_probes,
            failed_probes: self.failed_probes,
            battery_cost_bps: self.battery_cost_bps,
            contributed_bytes: self.contributed_bytes,
            consumed_bytes: self.consumed_bytes,
        }
    }
}

/// Why an observation is unusable, if it is.
pub open spec fn observation_fault(o: RelayRuntimeObservation) -> Option<Seq<char>> {
    if all_ws(o.peer_id@) {
        Some("peer id is required"@)
    } else if o.successful_probes == 0 && o.failed_probes == 0 {
        Some("at least one relay health probe is required"@)
    } else {
        None
    }
}

/// Reject observations without a peer id or without any health probe.
pub fn validate_observation(observation: &RelayRuntimeObservation) -> (r: Result<(), OverlayManagerError>)
    ensures
        match observation_fault(*observation) {
            None => r is Ok,
            Some(m) => r matches Err(OverlayManagerError::InvalidObservation(x)) && x@ == m,
        },
{
    if only_ws(observation.peer_id.as_str()) {
        return Err(OverlayManagerError::InvalidObservation(text("peer id is required")));
    }
    if observation.successful_probes == 0 && observation.failed_probes == 0 {
        return Err(
            OverlayManagerError::InvalidObservation(text("at least one relay health probe is required")),
        );
    }
    Ok(())
}

/// Route decision produced by the live overlay manager.
#[derive(Debug, PartialEq, Eq)]
pub struct OverlayRouteDecision {
    /// Selected content-blind relay route.
    pub route: RelayRoute,
    /// Ranked next-hop candidates visible to the source at decision time.
    pub ranked_source_neighbors: Vec<String>,
    /// Sequence number of the manager state used for the decision.
    pub manager_epoch: u64,
}

/// Runtime failover SLA for overlay route recovery.
#[derive(Clone, Copy, Debug, PartialEq, Eq, Structural)]
pub struct FailoverRecoveryPolicy {
    /// Maximum accepted route convergence time in milliseconds.
    pub max_failover_ms: u64,
    /// Maximum tolerated media gap after concealment in milliseconds.
    pub max_media_gap_ms: u64,
    /// Nominal concealment frame size used to size concealment work.
    pub concealment_frame_ms: u64,
}

impl FailoverRecoveryPolicy {
    /// The release SLA: three seconds to converge, 200 ms of media gap, 20 ms frames.
    pub open spec fn spec_default() -> Self {
        FailoverRecoveryPolicy { max_failover_ms: 3_000, max_media_gap_ms: 200, concealment_frame_ms: 20 }
    }
}

impl Default for FailoverRecoveryPolicy {
    fn default() -> (r: Self)
        ensures
            r == FailoverRecoveryPolicy::spec_default(),
    {
        FailoverRecoveryPolicy { max_failover_ms: 3_000, max_media_gap_ms: 200, concealment_frame_ms: 20 }
    }
}

/// Media gap/concealment result for a protected failover.
#[derive(Clone, Copy, Debug, PartialEq, Eq, Structural)]
pub struct MediaConcealmentReport {
    /// Observed media gap after transport/overlay recovery.
    pub observed_gap_ms: u64,
    /// Maximum tolerated media gap.
    pub target_gap_ms: u64,
    /// Number of concealment frames needed to bridge the observed gap.
    pub concealment_frames: u64,
    /// Whether the media gap stayed inside the target.
    pub target_met: bool,
}

/// `ceil(a / b)` for positive `b`.
pub open spec fn div_ceil(a: u64, b: u64) -> u64 {
    if a % b == 0 {
        a / b
    } else {
        (a / b + 1) as u64
    }
}

/// Concealment needed for a media gap, or the error when the gap is too long.
pub fn media_concealment_report(observed_gap_ms: u64, policy: FailoverRecoveryPolicy) -> (r: Result<
    MediaConcealmentReport,
    OverlayManagerError,
>)
    ensures
        observed_gap_ms > policy.max_media_gap_ms ==> r == Err::<MediaConcealmentReport, OverlayManagerError>(
            OverlayManagerError::MediaGapExceeded { observed_gap_ms, max_gap_ms: policy.max_media_gap_ms },
        ),
        observed_gap_ms <= policy.max_media_gap_ms ==> r == Ok::<MediaConcealmentReport, OverlayManagerError>(
            MediaConcealmentReport {
                observed_gap_ms,
                target_gap_ms: policy.max_media_gap_ms,
                concealment_frames: div_ceil(
                    observed_gap_ms,
                    if policy.concealment_frame_ms == 0 { 1 } else { policy.concealment_frame_ms },
                ),
                target_met: true,
            },
        ),
{
    if observed_gap_ms > policy.max_media_gap_ms {
        return Err(
            OverlayManagerError::MediaGapExceeded { observed_gap_ms, max_gap_ms: policy.max_media_gap_ms },
        );
    }
    let frame_ms = if policy.concealment_frame_ms == 0 { 1 } else { policy.concealment_frame_ms };
    let q = observed_gap_ms / frame_ms;
    assert(observed_gap_ms % frame_ms != 0 ==> q < u64::MAX) by (nonlinear_arith)
        requires
            frame_ms >= 1,
            q == observed_gap_ms / frame_ms,
    ;
    let concealment_frames = if observed_gap_ms % frame_ms == 0 { q } else { q + 1 };
    Ok(
        MediaConcealmentReport {
            observed_gap_ms,
            target_gap_ms: policy.max_media_gap_ms,
            concealment_frames,
            target_met: true,
        },
    )
}

impl FailoverRecoveryPolicy {
    /// Check a failover against this SLA before rerouting: convergence time
    /// first, then the media gap when one was observed.
    pub fn check_failover(&self, observed_convergence_ms: u64, observed_media_gap_ms: Option<u64>) -> (r: Result<
        Option<MediaConcealmentReport>,
        OverlayManagerError,
    >)
        ensures
            observed_convergence_ms > self.max_failover_ms ==> r == Err::<Option<MediaConcealmentReport>, OverlayManagerError>(
                OverlayManagerError::FailoverSlaExceeded {
                    observed_ms: observed_convergence_ms,
                    max_failover_ms: self.max_failover_ms,
                },
            ),
            observed_convergence_ms <= self.max_failover_ms ==> match observed_media_gap_ms {
                None => r == Ok::<Option<MediaConcealmentReport>, OverlayManagerError>(None),
                Some(g) => g > self.max_media_gap_ms ==> r == Err::<Option<MediaConcealmentReport>, OverlayManagerError>(
                    OverlayManagerError::MediaGapExceeded { observed_gap_ms: g, max_gap_ms: self.max_media_gap_ms },
                ),
            },
            observed_convergence_ms <= self.max_failover_ms ==> match observed_media_gap_ms {
                Some(g) => g <= self.max_media_gap_ms ==> r == Ok::<Option<MediaConcealmentReport>, OverlayManagerError>(
                    Some(
                        MediaConcealmentReport {
                            observed_gap_ms: g,
                            target_gap_ms: self.max_media_gap_ms,
                            concealment_frames: div_ceil(
                                g,
                                if self.concealment_frame_ms == 0 { 1 } else { self.concealment_frame_ms },
                            ),
                            target_met: true,
                        },
                    ),
                ),
                None => true,
            },
    {
        if observed_convergence_ms > self.max_failover_ms {
            return Err(
                OverlayManagerError::FailoverSlaExceeded {
                    observed_ms: observed_convergence_ms,
                    max_failover_ms: self.max_failover_ms,
                },
            );
        }
        match observed_media_gap_ms {
            None => Ok(None),
            Some(g) => match media_concealment_report(g, *self) {
                Ok(rep) => Ok(Some(rep)),
                Err(e) => Err(e),
            },
        }
    }
}

/// Overlay route payload class.
#[derive(Clone, Copy, Debug, PartialEq, Eq, Structural)]
pub enum OverlayRouteUse {
    /// Text messages and command/control frames.
    TextControl,
    /// Protected voice/media frames.
    VoiceMedia,
}

impl OverlayRouteUse {
    pub open spec fn min_egress(self) -> u64 {
        match self {
            OverlayRouteUse::TextControl => 1_024,
            OverlayRouteUse::VoiceMedia => 32_000,
        }
    }

    /// Minimum egress budget required from every relay hop.
    pub fn min_egress_bytes_per_second(self) -> (r: u64)
        ensures
            r == self.min_egress(),
    {
        match self {
            OverlayRouteUse::TextControl => 1_024,
            OverlayRouteUse::VoiceMedia => 32_000,
        }
    }
}

/// Capacity-checked overlay route ready for text/control or voice media.
#[derive(Debug, PartialEq, Eq)]
pub struct ConstructedOverlayRoute {
    /// Route use case.
    pub use_case: OverlayRouteUse,
    /// Selected content-blind route.
    pub route: RelayRoute,
    /// Number of relay hops/edges in the route.
    pub hop_count: usize,
    /// Minimum relay egress capacity seen across intermediate relay hops.
    pub bottleneck_egress_bytes_per_second: Option<u64>,
    /// Manager epoch used for route construction.
    pub manager_epoch: u64,
}

/// Failover decision plus manager epoch metadata.
#[derive(Debug, PartialEq, Eq)]
pub struct OverlayFailoverReport {
    /// Reroute details returned by the deterministic failover module.
    pub decision: FailoverDecision,
    /// Recovery SLA used to accept or reject the failover.
    pub recovery_policy: FailoverRecoveryPolicy,
    /// Media concealment/gap report when failover protected a media route.
    pub media_concealment: Option<MediaConcealmentReport>,
    /// Sequence number of the manager state used for the decision.
    pub manager_epoch: u64,
}

/// Reason a topology edge is being changed.
#[derive(Clone, Copy, Debug, PartialEq, Eq, Structural)]
pub enum TopologyChangeReason {
    /// Initial or trusted topology setup; not rate-limited.
    Bootstrap,
    /// Planned reparent caused by metric/ranking churn; rate-limited.
    PlannedReparent,
    /// Hard failure recovery; bypasses churn damping.
    HardFailure,
}

/// Damping policy for planned topology churn.
#[derive(Clone, Copy, Debug, PartialEq, Eq, Structural)]
pub struct ChurnDampingPolicy {
    /// Minimum milliseconds between planned reparent/topology changes.
    pub min_planned_change_interval_ms: u64,
}

impl Default for ChurnDampingPolicy {
    fn default() -> (r: Self)
        ensures
            r.min_planned_change_interval_ms == 30_000,
    {
        ChurnDampingPolicy { min_planned_change_interval_ms: 30_000 }
    }
}

pub open spec fn sat_add(a: u64, b: u64) -> u64 {
    if a + b > u64::MAX {
        u64::MAX
    } else {
        (a + b) as u64
    }
}

impl ChurnDampingPolicy {
    /// Earliest time after a planned change at `last` that the next one may happen.
    pub open spec fn next_allowed(self, last: u64) -> u64 {
        sat_add(last, self.min_planned_change_interval_ms)
    }

    /// Decide a topology change at `now_ms`: planned reparents are refused
    /// until the damping window after the previous planned change has passed;
    /// other reasons always pass. Returns the time of the latest planned change
    /// after this one.
    pub fn decide(&self, last_planned_ms: Option<u64>, now_ms: u64, reason: TopologyChangeReason) -> (r: Result<
        Option<u64>,
        OverlayManagerError,
    >)
        ensures
            !(reason is PlannedReparent) ==> r == Ok::<Option<u64>, OverlayManagerError>(last_planned_ms),
            reason is PlannedReparent ==> match last_planned_ms {
                Some(last) => if now_ms < self.next_allowed(last) {
                    r == Err::<Option<u64>, OverlayManagerError>(
                        OverlayManagerError::ChurnDamped { next_allowed_at_ms: self.next_allowed(last) },
                    )
                } else {
                    r == Ok::<Option<u64>, OverlayManagerError>(Some(now_ms))
                },
                None => r == Ok::<Option<u64>, OverlayManagerError>(Some(now_ms)),
            },
    {
        if reason == TopologyChangeReason::PlannedReparent {
            match last_planned_ms {
                Some(last) => {
                    let next_allowed = last.saturating_add(self.min_planned_change_interval_ms);
                    if now_ms < next_allowed {
                        return Err(OverlayManagerError::ChurnDamped { next_allowed_at_ms: next_allowed });
                    }
                },
                None => {},
            }
            return Ok(Some(now_ms));
        }
        Ok(last_planned_ms)
    }

    /// When the next planned change may happen, given the latest planned change.
    pub fn next_planned_change_allowed_at(&self, last_planned_ms: Option<u64>) -> (r: Option<u64>)
        ensures
            r == match last_planned_ms {
                Some(last) => Some(self.next_allowed(last)),
                None => None,
            },
    {
        match last_planned_ms {
            Some(last) => Some(last.saturating_add(self.min_planned_change_interval_ms)),
            None => None,
        }
    }
}

/// Accepted topology change report.
#[derive(Debug, PartialEq, Eq)]
pub struct TopologyChangeReport {
    /// Change reason.
    pub reason: TopologyChangeReason,
    /// Endpoint A in the new/updated edge.
    pub a: String,
    /// Endpoint B in the new/updated edge.
    pub b: String,
    /// Manager epoch after the accepted change.
    pub manager_epoch: u64,
    /// Next time a planned reparent may be accepted.
    pub next_planned_change_allowed_at_ms: Option<u64>,
}

/// Errors returned by the overlay manager.
#[derive(Debug, PartialEq, Eq)]
pub enum OverlayManagerError {
    /// Runtime observation was malformed or unauthenticated by the caller.
    InvalidObservation(String),
    /// Underlying topology operation failed.
    Topology(TopologyError),
    /// Capability advertisement validation/storage failed.
    Capability(CapabilityAdvertisementError),
    /// Route cannot satisfy hop, fanout, or capacity policy.
    RouteCapacity(String),
    /// Planned topology change was blocked by churn damping.
    ChurnDamped {
        /// Earliest time the planned change may be retried.
        next_allowed_at_ms: u64,
    },
    /// Failover convergence exceeded the release SLA.
    FailoverSlaExceeded {
        /// Observed route convergence time.
        observed_ms: u64,
        /// Maximum allowed convergence time.
        max_failover_ms: u64,
    },
    /// Media gap after failover exceeded the concealment target.
    MediaGapExceeded {
        /// Observed media gap after concealment/recovery.
        observed_gap_ms: u64,
        /// Maximum tolerated gap.
        max_gap_ms: u64,
    },
}

/// The relays strictly between the first and last peer of a route.
pub fn intermediate_relays(route: &RelayRoute) -> (r: Vec<String>)
    ensures
        route.path@.len() <= 2 ==> r@.len() == 0,
        route.path@.len() > 2 ==> r@ == route.path@.subrange(1, route.path@.len() - 1),
{
    let n = route.path.len();
    let mut out: Vec<String> = Vec::new();
    if n <= 2 {
        return out;
    }
    let mut i: usize = 1;
    while i + 1 < n
        invariant
            n == route.path@.len(),
            n > 2,
            1 <= i <= n - 1,
            out@ == route.path@.subrange(1, i as int),
        decreases n - i,
    {
        out.push(route.path[i].clone());
        assert(route.path@.subrange(1, i + 1) =~= route.path@.subrange(1, i as int).push(route.path@[i as int]));
        i = i + 1;
    }
    out
}

/// The first capacity failure of the relays `relays` for `use_case`, if any:
/// a missing advertisement, a degree above the advertised fanout, or too
/// little egress. Degrees are given per relay, in the same order.
pub open spec fn capacity_fault(
    book: Map<Seq<char>, RelayCapabilityAdvertisement>,
    relays: Seq<String>,
    degrees: Seq<usize>,
    use_case: OverlayRouteUse,
) -> Option<Seq<char>>
    decreases relays.len(),
{
    if relays.len() == 0 {
        None
    } else {
        let p = relays[0]@;
        if !book.contains_key(p) {
            Some("missing capability advertisement for relay "@ + p)
        } else if degrees[0] > book[p].relay_capacity.max_fanout {
            Some("relay "@ + p + " exceeds advertised fanout"@)
        } else if book[p].relay_capacity.egress_bytes_per_second < use_case.min_egress() {
            Some("relay "@ + p + " lacks egress capacity for "@ + use_label(use_case))
        } else {
            capacity_fault(book, relays.drop_first(), degrees.drop_first(), use_case)
        }
    }
}

/// Smallest advertised egress among the relays (all of which are in `book`).
pub open spec fn bottleneck(book: Map<Seq<char>, RelayCapabilityAdvertisement>, relays: Seq<String>) -> Option<u64>
    decreases relays.len(),
{
    if relays.len() == 0 {
        None
    } else {
        let here = book[relays.last()@].relay_capacity.egress_bytes_per_second;
        match bottleneck(book, relays.drop_last()) {
            None => Some(here),
            Some(b) => Some(if b <= here { b } else { here }),
        }
    }
}

pub open spec fn use_label(u: OverlayRouteUse) -> Seq<char> {
    match u {
        OverlayRouteUse::TextControl => "TextControl"@,
        OverlayRouteUse::VoiceMedia => "VoiceMedia"@,
    }
}

fn use_name(u: OverlayRouteUse) -> (r: &'static str)
    ensures
        r@ == use_label(u),
{
    match u {
        OverlayRouteUse::TextControl => "TextControl",
        OverlayRouteUse::VoiceMedia => "VoiceMedia",
    }
}

/// Check every intermediate relay of a route for advertised capacity and
/// compute the route's egress bottleneck. `degrees[i]` is the current
/// neighbour count of `relays[i]`.
pub fn check_relay_capacity(
    use_case: OverlayRouteUse,
    relays: &Vec<String>,
    degrees: &Vec<usize>,
    book: &CapabilityAdvertisementBook,
) -> (r: Result<Option<u64>, OverlayManagerError>)
    requires
        book.wf(),
        degrees@.len() == relays@.len(),
    ensures
        match capacity_fault(book.view(), relays@, degrees@, use_case) {
            Some(m) => r matches Err(OverlayManagerError::RouteCapacity(x)) && x@ == m,
            None => r == Ok::<Option<u64>, OverlayManagerError>(bottleneck(book.view(), relays@)),
        },
{
    let n = relays.len();
    let mut best: Option<u64> = None;
    let mut i: usize = 0;
    assert(relays@.skip(0) =~= relays@);
    assert(degrees@.skip(0) =~= degrees@);
    while i < n
        invariant
            n == relays@.len(),
            n == degrees@.len(),
            i <= n,
            book.wf(),
            capacity_fault(book.view(), relays@, degrees@, use_case) == capacity_fault(
                book.view(),
                relays@.skip(i as int),
                degrees@.skip(i as int),
                use_case,
            ),
            capacity_fault(book.view(), relays@.take(i as int), degrees@.take(i as int), use_case) is None ==> true,
            forall|k: int| 0 <= k < i ==> book.view().contains_key((#[trigger] relays@[k])@),
            best == bottleneck(book.view(), relays@.take(i as int)),
        decreases n - i,
    {
        let p = relays[i].as_str();
        assert(relays@.skip(i as int)[0] == relays@[i as int]);
        assert(degrees@.skip(i as int)[0] == degrees@[i as int]);
        let ad = match book.get(p) {
            Some(a) => a,
            None => {
                return Err(
                    OverlayManagerError::RouteCapacity(join2("missing capability advertisement for relay ", p)),
                );
            },
        };
        if degrees[i] > ad.relay_capacity.max_fanout as usize {
            let mut m = text("relay ");
            m.append(p);
            m.append(" exceeds advertised fanout");
            return Err(OverlayManagerError::RouteCapacity(m));
        }
        if ad.relay_capacity.egress_bytes_per_second < use_case.min_egress_bytes_per_second() {
            let mut m = text("relay ");
            m.append(p);
            m.append(" lacks egress capacity for ");
            m.append(use_name(use_case));
            return Err(OverlayManagerError::RouteCapacity(m));
        }
        let here = ad.relay_capacity.egress_bytes_per_second;
        best = match best {
            None => Some(here),
            Some(b) => Some(if b <= here { b } else { here }),
        };
        proof {
            assert(relays@.skip(i as int).drop_first() =~= relays@.skip(i + 1));
            assert(degrees@.skip(i as int).drop_first() =~= degrees@.skip(i + 1));
            assert(relays@.take(i + 1).drop_last() =~= relays@.take(i as int));
            assert(relays@.take(i + 1).last() == relays@[i as int]);
        }
        i = i + 1;
    }
    assert(relays@.take(n as int) =~= relays@);
    Ok(best)
}

impl Default for OverlayManager {
    fn default() -> (r: Self)
        ensures
            r.wf(),
            r.links().hop_cap() == MAX_RELAY_HOPS,
            r.observed() == Map::<Seq<char>, RelayRuntimeObservation>::empty(),
            r.failed() == Set::<Seq<char>>::empty(),
            r.seq_no() == 0,
    {
        OverlayManager::new(RelayLinks::default())
    }
}

/// `v` with `p` added, if it was not there.
fn with_peer(v: Vec<String>, p: &str) -> (r: Vec<String>)
    ensures
        peers_view(r@) == peers_view(v@).insert(p@),
{
    if contains_string(&v, p) {
        proof {
            assert(peers_view(v@) =~= peers_view(v@).insert(p@));
        }
        return v;
    }
    let ghost before = v@;
    let mut r = v;
    r.push(String::from_str(p));
    proof {
        assert(r@.map_values(|s: String| s@) =~= before.map_values(|s: String| s@).push(p@));
        before.map_values(|s: String| s@).lemma_push_to_set_commute(p@);
    }
    r
}

/// `v` without any entry equal to `p`.
fn without_peer(v: &Vec<String>, p: &str) -> (r: Vec<String>)
    ensures
        peers_view(r@) == peers_view(v@).remove(p@),
{
    let mut r: Vec<String> = Vec::new();
    let mut i: usize = 0;
    while i < v.len()
        invariant
            i <= v@.len(),
            peers_view(r@) == peers_view(v@.take(i as int)).remove(p@),
        decreases v@.len() - i,
    {
        let ghost before = r@;
        proof {
            assert(v@.take(i + 1) =~= v@.take(i as int).push(v@[i as int]));
            assert(v@.take(i + 1).map_values(|s: String| s@) =~= v@.take(i as int).map_values(|s: String| s@).push(
                v@[i as int]@,
            ));
            v@.take(i as int).map_values(|s: String| s@).lemma_push_to_set_commute(v@[i as int]@);
        }
        if !str_equal(v[i].as_str(), p) {
            r.push(v[i].clone());
            proof {
                assert(r@.map_values(|s: String| s@) =~= before.map_values(|s: String| s@).push(v@[i as int]@));
                before.map_values(|s: String| s@).lemma_push_to_set_commute(v@[i as int]@);
                assert(peers_view(r@) =~= peers_view(v@.take(i + 1)).remove(p@));
            }
        } else {
            proof {
                assert(peers_view(r@) =~= peers_view(v@.take(i + 1)).remove(p@));
            }
        }
        i = i + 1;
    }
    proof {
        assert(v@.take(v@.len() as int) =~= v@);
    }
    r
}

/// Is a planned reparent at `now_ms` inside the damping window after the last one.
pub open spec fn damped(policy: ChurnDampingPolicy, last: Option<u64>, now_ms: u64, reason: TopologyChangeReason) -> bool {
    &&& reason is PlannedReparent
    &&& last is Some
    &&& now_ms < policy.next_allowed(last->Some_0)
}

/// `after` is `before` with `o` accepted: its peer is known, no longer failed,
/// its observation stored, and the sequence number advanced; links, churn
/// policy and planned-change time are unchanged.
pub open spec fn observation_applied(before: OverlayManager, after: OverlayManager, o: RelayRuntimeObservation) -> bool {
    &&& after.observed() == before.observed().insert(o.peer_id@, o)
    &&& after.failed() == before.failed().remove(o.peer_id@)
    &&& after.seq_no() == sat_add(before.seq_no(), 1)
    &&& after.links().hop_cap() == before.links().hop_cap()
    &&& after.links().fanout_cap() == before.links().fanout_cap()
    &&& forall|p: Seq<char>| #[trigger] after.links().known(p) == (before.links().known(p) || p == o.peer_id@)
    &&& forall|x: Seq<char>, y: Seq<char>| #[trigger] after.links().linked(x, y) == before.links().linked(x, y)
    &&& after.churn() == before.churn()
    &&& after.last_planned() == before.last_planned()
}

/// What connecting `a` and `b` in `before` gives: an unknown peer or a full
/// fanout refuses and changes nothing; otherwise the pair is linked both ways.
pub open spec fn connect_outcome<T>(
    before: RelayLinks,
    after: RelayLinks,
    a: Seq<char>,
    b: Seq<char>,
    r: Result<T, OverlayManagerError>,
) -> bool {
    &&& !before.known(a) ==> (r matches Err(OverlayManagerError::Topology(TopologyError::UnknownPeer(p))) && p@ == a)
    &&& before.known(a) && !before.known(b) ==> (r matches Err(
        OverlayManagerError::Topology(TopologyError::UnknownPeer(p)),
    ) && p@ == b)
    &&& before.known(a) && before.known(b) && !before.fanout_allows(a, b) ==> (r matches Err(
        OverlayManagerError::Topology(TopologyError::FanoutLimit(p)),
    ) && p@ == a)
    &&& before.known(a) && before.known(b) && before.fanout_allows(a, b) && !before.fanout_allows(b, a) ==> (r matches Err(
        OverlayManagerError::Topology(TopologyError::FanoutLimit(p)),
    ) && p@ == b)
    &&& r is Ok <==> (before.known(a) && before.known(b) && before.fanout_allows(a, b) && before.fanout_allows(b, a))
    &&& after.hop_cap() == before.hop_cap()
    &&& after.fanout_cap() == before.fanout_cap()
    &&& forall|p: Seq<char>| #[trigger] after.known(p) == before.known(p)
    &&& r is Err ==> forall|x: Seq<char>, y: Seq<char>| #[trigger] after.linked(x, y) == before.linked(x, y)
    &&& r is Ok ==> forall|x: Seq<char>, y: Seq<char>| #[trigger] after.linked(x, y) == (before.linked(x, y) || (x == a
        && y == b) || (x == b && y == a))
}

/// The entries of `order` that `p` is linked to, each once, in order.
pub open spec fn ranked_pick(g: RelayLinks, p: Seq<char>, order: Seq<String>) -> Seq<Seq<char>>
    decreases order.len(),
{
    if order.len() == 0 {
        Seq::empty()
    } else {
        let before = ranked_pick(g, p, order.drop_last());
        let x = order.last()@;
        if g.linked(p, x) && !before.contains(x) {
            before.push(x)
        } else {
            before
        }
    }
}

proof fn lemma_path_view_contains(v: Seq<String>, x: Seq<char>)
    ensures
        path_view(v).contains(x) == peers_view(v).contains(x),
        peers_view(v) == path_view(v).to_set(),
{
}

/// Current degree of a relay, zero for an unknown peer.
pub open spec fn relay_degree(g: RelayLinks, p: Seq<char>) -> usize {
    if g.known(p) && g.degree(p) <= usize::MAX {
        g.degree(p) as usize
    } else {
        0
    }
}

/// Current degrees of the given relays.
pub open spec fn relay_degrees(g: RelayLinks, relays: Seq<String>) -> Seq<usize> {
    Seq::new(relays.len(), |i: int| relay_degree(g, relays[i]@))
}

/// Why `route` cannot carry `use_case`, if it cannot: too many hops, or the
/// first intermediate relay that lacks capacity.
pub open spec fn route_refusal(
    g: RelayLinks,
    book: Map<Seq<char>, RelayCapabilityAdvertisement>,
    route: RelayRoute,
    use_case: OverlayRouteUse,
) -> Option<Seq<char>> {
    if route.hops() > MAX_RELAY_HOPS {
        Some("route exceeds three-hop overlay limit"@)
    } else {
        let relays = route_relays(route);
        capacity_fault(book, relays, relay_degrees(g, relays), use_case)
    }
}

/// The relays strictly between a route's endpoints.
pub open spec fn route_relays(route: RelayRoute) -> Seq<String> {
    if route.path@.len() <= 2 {
        Seq::empty()
    } else {
        route.path@.subrange(1, route.path@.len() - 1)
    }
}

/// Refusal of a failover by its convergence time or media gap, if any.
pub open spec fn failover_refusal(
    policy: FailoverRecoveryPolicy,
    observed_convergence_ms: u64,
    observed_media_gap_ms: Option<u64>,
) -> Option<OverlayManagerError> {
    if observed_convergence_ms > policy.max_failover_ms {
        Some(
            OverlayManagerError::FailoverSlaExceeded {
                observed_ms: observed_convergence_ms,
                max_failover_ms: policy.max_failover_ms,
            },
        )
    } else {
        match observed_media_gap_ms {
            Some(g) => if g > policy.max_media_gap_ms {
                Some(OverlayManagerError::MediaGapExceeded { observed_gap_ms: g, max_gap_ms: policy.max_media_gap_ms })
            } else {
                None
            },
            None => None,
        }
    }
}

/// The concealment report of an accepted failover.
pub open spec fn media_outcome(policy: FailoverRecoveryPolicy, observed_media_gap_ms: Option<u64>) -> Option<
    MediaConcealmentReport,
> {
    match observed_media_gap_ms {
        None => None,
        Some(g) => Some(
            MediaConcealmentReport {
                observed_gap_ms: g,
                target_gap_ms: policy.max_media_gap_ms,
                concealment_frames: div_ceil(g, if policy.concealment_frame_ms == 0 { 1 } else { policy.concealment_frame_ms }),
                target_met: true,
            },
        ),
    }
}

/// Stateful overlay routing manager fed by runtime metrics. Relay ranking is
/// supplied by the caller as `rank_order`: the known peers, best-ranked first.
#[derive(Debug)]
pub struct OverlayManager {
    topology: RelayLinks,
    observations: KeyedList<RelayRuntimeObservation>,
    capabilities: CapabilityAdvertisementBook,
    churn_policy: ChurnDampingPolicy,
    last_planned_topology_change_ms: Option<u64>,
    failed_peers: Vec<String>,
    epoch: u64,
}

impl OverlayManager {
    /// The manager's internal consistency.
    pub closed spec fn wf(&self) -> bool {
        &&& self.observations.wf()
        &&& self.capabilities.wf()
        &&& forall|i: int|
            0 <= i < self.observations.items@.len() ==> (#[trigger] self.observations.items@[i]).0@
                == self.observations.items@[i].1.peer_id@
    }

    /// The overlay graph.
    pub closed spec fn links(&self) -> RelayLinks {
        self.topology
    }

    /// Latest accepted runtime observation per peer.
    pub closed spec fn observed(&self) -> Map<Seq<char>, RelayRuntimeObservation> {
        self.observations.view_map()
    }

    /// Latest accepted capability advertisement per peer.
    pub closed spec fn advertised(&self) -> Map<Seq<char>, RelayCapabilityAdvertisement> {
        self.capabilities.view()
    }

    /// Peers marked failed and avoided by routing.
    pub closed spec fn failed(&self) -> Set<Seq<char>> {
        peers_view(self.failed_peers@)
    }

    /// Current manager sequence number.
    pub closed spec fn seq_no(&self) -> u64 {
        self.epoch
    }

    /// Current churn damping policy.
    pub closed spec fn churn(&self) -> ChurnDampingPolicy {
        self.churn_policy
    }

    /// Time of the last accepted planned topology change.
    pub closed spec fn last_planned(&self) -> Option<u64> {
        self.last_planned_topology_change_ms
    }

    /// A manager over an existing graph, with nothing observed yet.
    pub fn new(topology: RelayLinks) -> (r: Self)
        ensures
            r.wf(),
            r.links() == topology,
            r.observed() == Map::<Seq<char>, RelayRuntimeObservation>::empty(),
            r.advertised() == Map::<Seq<char>, RelayCapabilityAdvertisement>::empty(),
            r.failed() == Set::<Seq<char>>::empty(),
            r.seq_no() == 0,
            r.churn() == (ChurnDampingPolicy { min_planned_change_interval_ms: 30_000 }),
            r.last_planned() is None,
    {
        let observations: KeyedList<RelayRuntimeObservation> = KeyedList::new();
        let failed_peers: Vec<String> = Vec::new();
        let r = OverlayManager {
            topology,
            observations,
            capabilities: CapabilityAdvertisementBook::new(),
            churn_policy: ChurnDampingPolicy::default(),
            last_planned_topology_change_ms: None,
            failed_peers,
            epoch: 0,
        };
        proof {
            assert(r.observations.view_map() =~= Map::<Seq<char>, RelayRuntimeObservation>::empty());
            assert(peers_view(r.failed_peers@) =~= Set::<Seq<char>>::empty()) by {
                assert(r.failed_peers@.map_values(|s: String| s@) =~= Seq::<Seq<char>>::empty());
            }
        }
        r
    }

    /// Current manager sequence number.
    pub fn epoch(&self) -> (r: u64)
        ensures
            r == self.seq_no(),
    {
        self.epoch
    }

    /// Number of peers with accepted runtime observations.
    pub fn peer_count(&self) -> (n: usize)
        requires
            self.wf(),
        ensures
            n == self.observed().dom().len(),
    {
        proof {
            crate::keyed::lemma_view_map_len(&self.observations);
        }
        self.observations.len()
    }

    /// The accepted runtime observations, one per peer.
    pub fn observations(&self) -> (r: Vec<RelayRuntimeObservation>)
        requires
            self.wf(),
        ensures
            r@.len() == self.observed().dom().len(),
            forall|i: int|
                0 <= i < r@.len() ==> self.observed().contains_key((#[trigger] r@[i]).peer_id@)
                    && self.observed()[r@[i].peer_id@] == r@[i],
    {
        proof {
            crate::keyed::lemma_view_map_len(&self.observations);
        }
        let mut r: Vec<RelayRuntimeObservation> = Vec::new();
        let mut i: usize = 0;
        while i < self.observations.items.len()
            invariant
                i <= self.observations.items@.len(),
                r@.len() == i,
                forall|j: int| 0 <= j < i ==> #[trigger] r@[j] == self.observations.items@[j].1,
            decreases self.observations.items@.len() - i,
        {
            r.push(self.observations.items[i].1.clone());
            i = i + 1;
        }
        proof {
            assert forall|i: int| 0 <= i < r@.len() implies self.observed().contains_key((#[trigger] r@[i]).peer_id@)
                && self.observed()[r@[i].peer_id@] == r@[i] by {
                let k = self.observations.items@[i].0@;
                crate::keyed::lemma_key_index(self.observations.items@, k);
                assert(self.observations.has(k));
                assert(self.observations.view_map().contains_key(k));
                assert(self.observations.view_map()[k] == self.observations.at(k));
            }
        }
        r
    }

    /// Upsert one runtime observation: the peer joins the graph, leaves the
    /// failed set, and the manager's sequence number advances.
    pub fn upsert_observation(&mut self, observation: RelayRuntimeObservation) -> (r: Result<(), OverlayManagerError>)
        requires
            old(self).wf(),
        ensures
            final(self).wf(),
            match observation_fault(observation) {
                Some(m) => (r matches Err(OverlayManagerError::InvalidObservation(x)) && x@ == m) && *final(self)
                    == *old(self),
                None => r is Ok && observation_applied(*old(self), *final(self), observation)
                    && final(self).advertised() == old(self).advertised(),
            },
    {
        match validate_observation(&observation) {
            Err(e) => {
                return Err(e);
            },
            Ok(()) => {},
        }
        self.topology.add_peer(observation.peer_id.as_str());
        self.failed_peers = without_peer(&self.failed_peers, observation.peer_id.as_str());
        let key = observation.peer_id.clone();
        let ghost before = self.observations;
        self.observations.upsert(key, observation);
        proof {
            assert forall|i: int| 0 <= i < self.observations.items@.len() implies (
            #[trigger] self.observations.items@[i]).0@ == self.observations.items@[i].1.peer_id@ by {
                let k = self.observations.items@[i].0@;
                crate::keyed::lemma_key_index(self.observations.items@, k);
                assert(self.observations.has(k));
                assert(self.observations.view_map().contains_key(k));
                assert(self.observations.view_map()[k] == self.observations.at(k));
                if k != observation.peer_id@ {
                    assert(before.view_map().contains_key(k));
                    assert(before.has(k));
                    crate::keyed::lemma_key_index(before.items@, k);
                    let j = crate::keyed::key_index(before.items@, k);
                    assert(before.items@[j].0@ == before.items@[j].1.peer_id@);
                    assert(before.view_map()[k] == before.at(k));
                }
            }
        }
        self.bump_epoch();
        Ok(())
    }

    /// Accept a fresh capability advertisement and feed the observation it
    /// implies into routing.
    pub fn upsert_capability_advertisement(&mut self, advertisement: RelayCapabilityAdvertisement, now_ms: u64) -> (r:
        Result<(), OverlayManagerError>)
        requires
            old(self).wf(),
        ensures
            final(self).wf(),
            advertisement.fault_at(now_ms) is Some ==> (r matches Err(OverlayManagerError::Capability(e))
                && RelayCapabilityAdvertisement::fault_matches(advertisement.fault_at(now_ms)->0, e)) && *final(self)
                == *old(self),
            advertisement.fault_at(now_ms) is None && old(self).advertised().contains_key(advertisement.peer_id@)
                && advertisement.sequence <= old(self).advertised()[advertisement.peer_id@].sequence ==> r
                == Err::<(), OverlayManagerError>(
                OverlayManagerError::Capability(
                    CapabilityAdvertisementError::Stale {
                        peer_id: advertisement.peer_id,
                        sequence: advertisement.sequence,
                        latest: old(self).advertised()[advertisement.peer_id@].sequence,
                    },
                ),
            ) && *final(self) == *old(self),
            advertisement.fault_at(now_ms) is None && !(old(self).advertised().contains_key(advertisement.peer_id@)
                && advertisement.sequence <= old(self).advertised()[advertisement.peer_id@].sequence) ==> {
                let o = advertisement.observation();
                &&& final(self).advertised() == old(self).advertised().insert(advertisement.peer_id@, advertisement)
                &&& match observation_fault(o) {
                    Some(m) => (r matches Err(OverlayManagerError::InvalidObservation(x)) && x@ == m)
                        && final(self).observed() == old(self).observed() && final(self).links() == old(self).links()
                        && final(self).seq_no() == old(self).seq_no(),
                    None => r is Ok && observation_applied(*old(self), *final(self), o),
                }
            },
    {
        let observation = advertisement.to_runtime_observation();
        match self.capabilities.accept(advertisement, now_ms) {
            Err(e) => {
                return Err(OverlayManagerError::Capability(e));
            },
            Ok(()) => {},
        }
        self.upsert_observation(observation)
    }

    /// Connect two known peers in the overlay graph.
    pub fn connect_peers(&mut self, a: &str, b: &str) -> (r: Result<(), OverlayManagerError>)
        requires
            old(self).wf(),
        ensures
            final(self).wf(),
            connect_outcome(old(self).links(), final(self).links(), a@, b@, r),
            r is Err ==> *final(self) == *old(self),
            r is Ok ==> final(self).seq_no() == sat_add(old(self).seq_no(), 1) && final(self).observed() == old(
                self,
            ).observed() && final(self).advertised() == old(self).advertised() && final(self).failed() == old(
                self,
            ).failed() && final(self).last_planned() == old(self).last_planned() && final(self).churn() == old(
                self,
            ).churn(),
    {
        match self.topology.connect(a, b) {
            Err(e) => {
                return Err(OverlayManagerError::Topology(e));
            },
            Ok(()) => {},
        }
        self.bump_epoch();
        Ok(())
    }

    /// Replace the churn damping policy.
    pub fn with_churn_policy(self, churn_policy: ChurnDampingPolicy) -> (r: Self)
        requires
            self.wf(),
        ensures
            r.wf(),
            r.churn() == churn_policy,
            r.links() == self.links(),
            r.observed() == self.observed(),
            r.advertised() == self.advertised(),
            r.failed() == self.failed(),
            r.seq_no() == self.seq_no(),
            r.last_planned() == self.last_planned(),
    {
        let mut m = self;
        m.churn_policy = churn_policy;
        m
    }

    /// Connect peers, refusing a planned reparent inside the churn damping
    /// window; other reasons are never damped.
    pub fn connect_peers_with_churn_damping(
        &mut self,
        a: &str,
        b: &str,
        now_ms: u64,
        reason: TopologyChangeReason,
    ) -> (r: Result<TopologyChangeReport, OverlayManagerError>)
        requires
            old(self).wf(),
        ensures
            final(self).wf(),
            final(self).churn() == old(self).churn(),
            damped(old(self).churn(), old(self).last_planned(), now_ms, reason) ==> r == Err::<
                TopologyChangeReport,
                OverlayManagerError,
            >(
                OverlayManagerError::ChurnDamped {
                    next_allowed_at_ms: old(self).churn().next_allowed(old(self).last_planned()->Some_0),
                },
            ) && *final(self) == *old(self),
            !damped(old(self).churn(), old(self).last_planned(), now_ms, reason) ==> {
                let planned = if reason is PlannedReparent { Some(now_ms) } else { old(self).last_planned() };
                &&& final(self).last_planned() == planned
                &&& connect_outcome(old(self).links(), final(self).links(), a@, b@, match r {
                    Ok(_) => Ok::<(), OverlayManagerError>(()),
                    Err(e) => Err(e),
                })
                &&& final(self).observed() == old(self).observed()
                &&& final(self).advertised() == old(self).advertised()
                &&& final(self).failed() == old(self).failed()
                &&& r is Err ==> final(self).seq_no() == old(self).seq_no()
                &&& r matches Ok(report) ==> {
                    &&& final(self).seq_no() == sat_add(old(self).seq_no(), 1)
                    &&& report.reason == reason
                    &&& report.a@ == a@
                    &&& report.b@ == b@
                    &&& report.manager_epoch == final(self).seq_no()
                    &&& report.next_planned_change_allowed_at_ms == match planned {
                        Some(last) => Some(old(self).churn().next_allowed(last)),
                        None => None,
                    }
                }
            },
    {
        let planned = match self.churn_policy.decide(self.last_planned_topology_change_ms, now_ms, reason) {
            Err(e) => {
                return Err(e);
            },
            Ok(p) => p,
        };
        self.last_planned_topology_change_ms = planned;
        match self.topology.connect(a, b) {
            Err(e) => {
                return Err(OverlayManagerError::Topology(e));
            },
            Ok(()) => {},
        }
        self.bump_epoch();
        let next_planned_change_allowed_at_ms = self.churn_policy.next_planned_change_allowed_at(planned);
        Ok(
            TopologyChangeReport {
                reason,
                a: String::from_str(a),
                b: String::from_str(b),
                manager_epoch: self.epoch,
                next_planned_change_allowed_at_ms,
            },
        )
    }

    /// Neighbours of `peer_id`, best-ranked first: those in `rank_order`
    /// order, then any neighbour that `rank_order` leaves out.
    pub fn ranked_neighbors(&self, peer_id: &str, rank_order: &Vec<String>) -> (r: Vec<String>)
        ensures
            unique_strings(r@),
            forall|w: Seq<char>| #[trigger] peers_view(r@).contains(w) == self.links().linked(peer_id@, w),
            path_view(r@).take(ranked_pick(self.links(), peer_id@, rank_order@).len() as int) == ranked_pick(
                self.links(),
                peer_id@,
                rank_order@,
            ),
    {
        let ghost g = self.topology;
        let ns = self.topology.neighbors(peer_id);
        let mut r: Vec<String> = Vec::new();
        let mut j: usize = 0;
        proof {
            assert(rank_order@.take(0) =~= Seq::<String>::empty());
            assert(path_view(r@) =~= Seq::<Seq<char>>::empty());
        }
        while j < rank_order.len()
            invariant
                g == self.topology,
                j <= rank_order@.len(),
                unique_strings(ns@),
                forall|b: Seq<char>| peers_view(ns@).contains(b) == g.linked(peer_id@, b),
                path_view(r@) == ranked_pick(g, peer_id@, rank_order@.take(j as int)),
                unique_strings(r@),
                forall|w: Seq<char>| #[trigger] peers_view(r@).contains(w) ==> g.linked(peer_id@, w),
            decreases rank_order@.len() - j,
        {
            let x = &rank_order[j];
            let ghost before = r@;
            proof {
                assert(rank_order@.take(j + 1).drop_last() =~= rank_order@.take(j as int));
                assert(rank_order@.take(j + 1).last() == rank_order@[j as int]);
                lemma_path_view_contains(before, x@);
            }
            if contains_string(&ns, x.as_str()) && !contains_string(&r, x.as_str()) {
                r.push(x.clone());
                proof {
                    assert(path_view(r@) =~= path_view(before).push(x@));
                    assert forall|a: int, b: int| 0 <= a < r@.len() && 0 <= b < r@.len() && a != b implies (
                    #[trigger] r@[a])@ != (#[trigger] r@[b])@ by {
                        if a == before.len() {
                            assert(path_view(before)[b] == before[b]@);
                        } else if b == before.len() {
                            assert(path_view(before)[a] == before[a]@);
                        }
                    }
                    path_view(before).lemma_push_to_set_commute(x@);
                }
            }
            j = j + 1;
        }
        proof {
            assert(rank_order@.take(rank_order@.len() as int) =~= rank_order@);
        }
        let ghost picked = path_view(r@);
        let mut k: usize = 0;
        while k < ns.len()
            invariant
                g == self.topology,
                k <= ns@.len(),
                unique_strings(ns@),
                forall|b: Seq<char>| peers_view(ns@).contains(b) == g.linked(peer_id@, b),
                path_view(r@).take(picked.len() as int) == picked,
                picked.len() <= r@.len(),
                picked == ranked_pick(g, peer_id@, rank_order@),
                unique_strings(r@),
                forall|w: Seq<char>| #[trigger] peers_view(r@).contains(w) ==> g.linked(peer_id@, w),
                forall|i: int| 0 <= i < k ==> peers_view(r@).contains((#[trigger] ns@[i])@),
            decreases ns@.len() - k,
        {
            let y = &ns[k];
            let ghost before = r@;
            proof {
                lemma_path_view_contains(before, y@);
                assert(peers_view(ns@).contains(y@)) by {
                    assert(path_view(ns@)[k as int] == y@);
                }
            }
            if !contains_string(&r, y.as_str()) {
                r.push(y.clone());
                proof {
                    assert(path_view(r@) =~= path_view(before).push(y@));
                    assert(path_view(r@).take(picked.len() as int) =~= path_view(before).take(picked.len() as int));
                    assert forall|a: int, b: int| 0 <= a < r@.len() && 0 <= b < r@.len() && a != b implies (
                    #[trigger] r@[a])@ != (#[trigger] r@[b])@ by {
                        if a == before.len() {
                            assert(path_view(before)[b] == before[b]@);
                        } else if b == before.len() {
                            assert(path_view(before)[a] == before[a]@);
                        }
                    }
                    path_view(before).lemma_push_to_set_commute(y@);
                }
            }
            proof {
                assert(peers_view(r@).contains(y@)) by {
                    lemma_path_view_contains(r@, y@);
                }
                assert forall|i: int| 0 <= i < k + 1 implies peers_view(r@).contains((#[trigger] ns@[i])@) by {
                    if i < k {
                        assert(peers_view(before).contains(ns@[i]@));
                        path_view(before).lemma_push_to_set_commute(y@);
                    }
                }
            }
            k = k + 1;
        }
        proof {
            assert forall|w: Seq<char>| #[trigger] peers_view(r@).contains(w) == g.linked(peer_id@, w) by {
                if g.linked(peer_id@, w) {
                    let m = path_view(ns@);
                    assert(peers_view(ns@).contains(w));
                    let i = choose|i: int| 0 <= i < m.len() && m[i] == w;
                    assert(ns@[i]@ == w);
                }
            }
        }
        r
    }

    /// The route breadth-first search picks from `source` to `destination`
    /// around the failed peers, trying neighbours in `rank_order` first.
    pub open spec fn chosen_route(&self, source: Seq<char>, destination: Seq<char>, rank_order: Seq<String>) -> Option<
        Seq<Seq<char>>,
    > {
        crate::topology::ranked_search(self.links(), self.failed(), source, destination, path_view(rank_order))
    }

    /// Select a route with the latest observations, avoiding failed peers.
    pub fn route(&self, source: &str, destination: &str, rank_order: &Vec<String>) -> (r: Result<
        OverlayRouteDecision,
        OverlayManagerError,
    >)
        ensures
            r is Err ==> r matches Err(OverlayManagerError::Topology(_)),
            route_outcome(self.links(), self.failed(), source@, destination@, match r {
                Ok(d) => Ok(d.route),
                Err(OverlayManagerError::Topology(e)) => Err(e),
                Err(_) => Err(TopologyError::NoRoute),
            }),
            r matches Ok(d) ==> {
                &&& self.chosen_route(source@, destination@, rank_order@) == Some(path_view(d.route.path@))
                &&& d.manager_epoch == self.seq_no()
                &&& unique_strings(d.ranked_source_neighbors@)
                &&& forall|w: Seq<char>| #[trigger] peers_view(d.ranked_source_neighbors@).contains(w)
                    == self.links().linked(source@, w)
                &&& path_view(d.ranked_source_neighbors@).take(
                    ranked_pick(self.links(), source@, rank_order@).len() as int,
                ) == ranked_pick(self.links(), source@, rank_order@)
            },
    {
        let route = match self.topology.route_avoiding(source, destination, &self.failed_peers, rank_order) {
            Ok(route) => route,
            Err(e) => {
                return Err(OverlayManagerError::Topology(e));
            },
        };
        let ranked_source_neighbors = self.ranked_neighbors(source, rank_order);
        Ok(OverlayRouteDecision { route, ranked_source_neighbors, manager_epoch: self.epoch })
    }

    /// Construct a capacity-checked route for text/control or voice media:
    /// the route must stay within the hop cap, and every intermediate relay
    /// must have an advertisement, a degree within its advertised fanout, and
    /// enough egress for the use case.
    pub fn construct_route(
        &self,
        use_case: OverlayRouteUse,
        source: &str,
        destination: &str,
        rank_order: &Vec<String>,
    ) -> (r: Result<ConstructedOverlayRoute, OverlayManagerError>)
        requires
            self.wf(),
        ensures
            r matches Err(OverlayManagerError::Topology(e)) ==> route_outcome(
                self.links(),
                self.failed(),
                source@,
                destination@,
                Err(e),
            ),
            r matches Err(OverlayManagerError::RouteCapacity(m)) ==> exists|route: RelayRoute|
                route_outcome(self.links(), self.failed(), source@, destination@, Ok(route))
                && self.chosen_route(source@, destination@, rank_order@) == Some(path_view(route.path@))
                && #[trigger] route_refusal(
                    self.links(),
                    self.advertised(),
                    route,
                    use_case,
                ) == Some(m@),
            r is Err ==> (r matches Err(OverlayManagerError::Topology(_))) || (r matches Err(
                OverlayManagerError::RouteCapacity(_),
            )),
            r matches Ok(c) ==> {
                &&& route_outcome(self.links(), self.failed(), source@, destination@, Ok(c.route))
                &&& self.chosen_route(source@, destination@, rank_order@) == Some(path_view(c.route.path@))
                &&& route_refusal(self.links(), self.advertised(), c.route, use_case) is None
                &&& c.use_case == use_case
                &&& c.hop_count == c.route.hops()
                &&& c.bottleneck_egress_bytes_per_second == bottleneck(self.advertised(), route_relays(c.route))
                &&& c.manager_epoch == self.seq_no()
            },
            self.links().known(source@) && self.links().known(destination@) && !self.failed().contains(source@)
                && !self.failed().contains(destination@) && crate::topology::reach(
                self.links(),
                self.failed(),
                source@,
                self.links().hop_cap(),
            ).contains(destination@) ==> !(r matches Err(OverlayManagerError::Topology(_))),
    {
        let decision = self.route(source, destination, rank_order);
        let decision = match decision {
            Ok(d) => d,
            Err(e) => {
                return Err(e);
            },
        };
        let route = decision.route;
        if !route.within_hop_limit() {
            let m = text("route exceeds three-hop overlay limit");
            proof {
                assert(route_refusal(self.links(), self.advertised(), route, use_case) == Some(m@));
            }
            return Err(OverlayManagerError::RouteCapacity(m));
        }
        let relays = intermediate_relays(&route);
        let mut degrees: Vec<usize> = Vec::new();
        let mut i: usize = 0;
        while i < relays.len()
            invariant
                i <= relays@.len(),
                degrees@.len() == i,
                forall|j: int| 0 <= j < i ==> #[trigger] degrees@[j] == relay_degree(self.links(), relays@[j]@),
            decreases relays@.len() - i,
        {
            let d = match self.topology.peer_degree(relays[i].as_str()) {
                Some(n) => n,
                None => 0,
            };
            degrees.push(d);
            i = i + 1;
        }
        proof {
            assert(degrees@ =~= relay_degrees(self.links(), relays@)) by {
                assert forall|j: int| 0 <= j < degrees@.len() implies degrees@[j] == relay_degrees(self.links(), relays@)[j] by {
                }
            }
            assert(relays@ =~= route_relays(route));
        }
        let bottleneck = match check_relay_capacity(use_case, &relays, &degrees, &self.capabilities) {
            Ok(b) => b,
            Err(e) => {
                proof {
                    assert(route_refusal(self.links(), self.advertised(), route, use_case) is Some);
                }
                return Err(e);
            },
        };
        let hop_count = route.hop_count();
        Ok(
            ConstructedOverlayRoute {
                use_case,
                route,
                hop_count,
                bottleneck_egress_bytes_per_second: bottleneck,
                manager_epoch: self.epoch,
            },
        )
    }

    /// Mark a peer failed and produce a bounded-hop replacement route under a
    /// caller-supplied recovery policy.
    pub fn mark_failed_and_reroute_with_policy(
        &mut self,
        previous: RelayRoute,
        failed_peer: &str,
        observed_convergence_ms: u64,
        observed_media_gap_ms: Option<u64>,
        recovery_policy: FailoverRecoveryPolicy,
        rank_order: &Vec<String>,
    ) -> (r: Result<OverlayFailoverReport, OverlayManagerError>)
        requires
            old(self).wf(),
        ensures
            final(self).wf(),
            failover_refusal(recovery_policy, observed_convergence_ms, observed_media_gap_ms) matches Some(e) ==> r
                == Err::<OverlayFailoverReport, OverlayManagerError>(e) && *final(self) == *old(self),
            failover_refusal(recovery_policy, observed_convergence_ms, observed_media_gap_ms) is None ==> {
                &&& final(self).failed() == old(self).failed().insert(failed_peer@)
                &&& final(self).links() == old(self).links()
                &&& final(self).observed() == old(self).observed()
                &&& final(self).advertised() == old(self).advertised()
                &&& final(self).churn() == old(self).churn()
                &&& final(self).last_planned() == old(self).last_planned()
                &&& r is Err ==> (r matches Err(OverlayManagerError::Topology(_))) && final(self).seq_no() == old(
                    self,
                ).seq_no()
                &&& reroute_outcome(old(self).links(), previous, failed_peer@, observed_convergence_ms, match r {
                    Ok(rep) => Ok(rep.decision),
                    Err(OverlayManagerError::Topology(e)) => Err(e),
                    Err(_) => Err(TopologyError::NoRoute),
                })
                &&& r matches Ok(rep) ==> {
                    &&& rep.recovery_policy == recovery_policy
                    &&& rep.media_concealment == media_outcome(recovery_policy, observed_media_gap_ms)
                    &&& final(self).seq_no() == sat_add(old(self).seq_no(), 1)
                    &&& rep.manager_epoch == final(self).seq_no()
                }
            },
    {
        let media_concealment = match recovery_policy.check_failover(observed_convergence_ms, observed_media_gap_ms) {
            Ok(m) => m,
            Err(e) => {
                return Err(e);
            },
        };
        let mut failed: Vec<String> = Vec::new();
        std::mem::swap(&mut failed, &mut self.failed_peers);
        self.failed_peers = with_peer(failed, failed_peer);
        let decision = match reroute_after_failure(
            &self.topology,
            previous,
            failed_peer,
            observed_convergence_ms,
            rank_order,
        ) {
            Ok(d) => d,
            Err(e) => {
                return Err(OverlayManagerError::Topology(e));
            },
        };
        self.bump_epoch();
        Ok(OverlayFailoverReport { decision, recovery_policy, media_concealment, manager_epoch: self.epoch })
    }

    /// Mark a peer failed and reroute under the default recovery policy.
    pub fn mark_failed_and_reroute(
        &mut self,
        previous: RelayRoute,
        failed_peer: &str,
        observed_convergence_ms: u64,
        rank_order: &Vec<String>,
    ) -> (r: Result<OverlayFailoverReport, OverlayManagerError>)
        requires
            old(self).wf(),
        ensures
            final(self).wf(),
            observed_convergence_ms > 3_000 ==> r == Err::<OverlayFailoverReport, OverlayManagerError>(
                OverlayManagerError::FailoverSlaExceeded { observed_ms: observed_convergence_ms, max_failover_ms: 3_000 },
            ) && *final(self) == *old(self),
            observed_convergence_ms <= 3_000 ==> {
                &&& final(self).failed() == old(self).failed().insert(failed_peer@)
                &&& final(self).links() == old(self).links()
                &&& reroute_outcome(old(self).links(), previous, failed_peer@, observed_convergence_ms, match r {
                    Ok(rep) => Ok(rep.decision),
                    Err(OverlayManagerError::Topology(e)) => Err(e),
                    Err(_) => Err(TopologyError::NoRoute),
                })
                &&& r is Err ==> (r matches Err(OverlayManagerError::Topology(_)))
                &&& r matches Ok(rep) ==> {
                    &&& rep.media_concealment is None
                    &&& rep.manager_epoch == final(self).seq_no()
                    &&& final(self).seq_no() == sat_add(old(self).seq_no(), 1)
                }
            },
    {
        self.mark_failed_and_reroute_with_policy(
            previous,
            failed_peer,
            observed_convergence_ms,
            None,
            FailoverRecoveryPolicy::default(),
            rank_order,
        )
    }

    /// Mark a media relay failed and reroute under the default policy, which
    /// also bounds the media gap.
    pub fn mark_failed_media_and_reroute(
        &mut self,
        previous: RelayRoute,
        failed_peer: &str,
        observed_convergence_ms: u64,
        observed_media_gap_ms: u64,
        rank_order: &Vec<String>,
    ) -> (r: Result<OverlayFailoverReport, OverlayManagerError>)
        requires
            old(self).wf(),
        ensures
            final(self).wf(),
            failover_refusal(FailoverRecoveryPolicy::spec_default(), observed_convergence_ms, Some(observed_media_gap_ms))
                matches Some(e) ==> r == Err::<OverlayFailoverReport, OverlayManagerError>(e) && *final(self)
                == *old(self),
            failover_refusal(FailoverRecoveryPolicy::spec_default(), observed_convergence_ms, Some(observed_media_gap_ms))
                is None ==> {
                &&& final(self).failed() == old(self).failed().insert(failed_peer@)
                &&& reroute_outcome(old(self).links(), previous, failed_peer@, observed_convergence_ms, match r {
                    Ok(rep) => Ok(rep.decision),
                    Err(OverlayManagerError::Topology(e)) => Err(e),
                    Err(_) => Err(TopologyError::NoRoute),
                })
                &&& r is Err ==> (r matches Err(OverlayManagerError::Topology(_)))
                &&& r matches Ok(rep) ==> {
                    &&& rep.media_concealment == media_outcome(
                        FailoverRecoveryPolicy::spec_default(),
                        Some(observed_media_gap_ms),
                    )
                    &&& rep.manager_epoch == final(self).seq_no()
                }
            },
    {
        self.mark_failed_and_reroute_with_policy(
            previous,
            failed_peer,
            observed_convergence_ms,
            Some(observed_media_gap_ms),
            FailoverRecoveryPolicy::default(),
            rank_order,
        )
    }

    fn bump_epoch(&mut self)
        ensures
            final(self).epoch == crate::manager::sat_add(old(self).epoch, 1),
            final(self).topology == old(self).topology,
            final(self).observations == old(self).observations,
            final(self).capabilities == old(self).capabilities,
            final(self).churn_policy == old(self).churn_policy,
            final(self).last_planned_topology_change_ms == old(self).last_planned_topology_change_ms,
            final(self).failed_peers == old(self).failed_peers,
    {
        self.epoch = self.epoch.saturating_add(1);
    }
}

} // verus!
