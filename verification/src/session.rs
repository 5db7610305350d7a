//! Transport session state machine for ICE/WebRTC negotiation and route status.
//!
//! This module models session state and status only. It does not perform
//! signaling, ICE gathering, candidate exchange, or WebRTC transport I/O.
use vstd::prelude::*;
use crate::transport::{ConnectivityPlan, Endpoint, FallbackLeg, RouteReport};
use crate::text::text;

verus! {

/// Lifecycle state for one transport session.
#[derive(Clone, Copy, Debug, PartialEq, Eq, PartialOrd, Ord, Structural)]
pub enum TransportSessionState {
    /// No negotiation has started.
    Idle,
    /// Offer/answer or equivalent signaling is in progress.
    Signaling,
    /// ICE candidates are being gathered.
    IceGathering,
    /// Connectivity checks are running against gathered candidates.
    Checking,
    /// A direct ICE/STUN route is active.
    Direct,
    /// Legacy unsupported peer overlay route. Retained only for decoding old snapshots.
    OverlayRelay,
    /// The encrypted TURN route is active.
    TurnRelay,
    /// A previously active route was lost.
    Disconnected,
    /// Reconnection orchestration is in progress.
    Reconnecting,
    /// The session has reached a terminal failure until reset.
    Failed,
    /// Session was intentionally cancelled or torn down locally.
    Cancelled,
}

impl TransportSessionState {
    /// The exact state set of the transport-session contract.
    pub const ALL: [TransportSessionState; 11] = [
        TransportSessionState::Idle,
        TransportSessionState::Signaling,
        TransportSessionState::IceGathering,
        TransportSessionState::Checking,
        TransportSessionState::Direct,
        TransportSessionState::OverlayRelay,
        TransportSessionState::TurnRelay,
        TransportSessionState::Disconnected,
        TransportSessionState::Reconnecting,
        TransportSessionState::Failed,
        TransportSessionState::Cancelled,
    ];

    pub open spec fn connected_spec(self) -> bool {
        self is Direct || self is TurnRelay
    }

    /// True when the state represents an active data route.
    pub fn is_connected(self) -> (b: bool)
        ensures
            b == self.connected_spec(),
    {
        match self {
            TransportSessionState::Direct | TransportSessionState::TurnRelay => true,
            _ => false,
        }
    }
}

/// Route kind selected by the transport session.
#[derive(Clone, Copy, Debug, PartialEq, Eq, PartialOrd, Ord, Structural)]
pub enum TransportRoute {
    /// Direct ICE/STUN connectivity.
    Direct,
    /// Legacy unsupported peer overlay fallback. The current policy never selects it.
    OverlayRelay,
    /// Encrypted TURN fallback.
    TurnRelay,
}

impl TransportRoute {
    pub open spec fn of_leg(leg: FallbackLeg) -> Self {
        match leg {
            FallbackLeg::Stun => TransportRoute::Direct,
            FallbackLeg::RelayOverlay => TransportRoute::OverlayRelay,
            FallbackLeg::Turn => TransportRoute::TurnRelay,
        }
    }

    pub open spec fn state_of(self) -> TransportSessionState {
        match self {
            TransportRoute::Direct => TransportSessionState::Direct,
            TransportRoute::OverlayRelay => TransportSessionState::OverlayRelay,
            TransportRoute::TurnRelay => TransportSessionState::TurnRelay,
        }
    }

    pub open spec fn event_of(self) -> TransportSessionEvent {
        match self {
            TransportRoute::Direct => TransportSessionEvent::SelectDirect,
            TransportRoute::OverlayRelay => TransportSessionEvent::SelectOverlayRelay,
            TransportRoute::TurnRelay => TransportSessionEvent::SelectTurnRelay,
        }
    }

    /// Convert a fallback planner leg into the route state surfaced by sessions.
    pub fn from_fallback_leg(leg: FallbackLeg) -> (r: Self)
        ensures
            r == Self::of_leg(leg),
    {
        match leg {
            FallbackLeg::Stun => TransportRoute::Direct,
            FallbackLeg::RelayOverlay => TransportRoute::OverlayRelay,
            FallbackLeg::Turn => TransportRoute::TurnRelay,
        }
    }

    fn state(self) -> (r: TransportSessionState)
        ensures
            r == self.state_of(),
    {
        match self {
            TransportRoute::Direct => TransportSessionState::Direct,
            TransportRoute::OverlayRelay => TransportSessionState::OverlayRelay,
            TransportRoute::TurnRelay => TransportSessionState::TurnRelay,
        }
    }
}

/// Typed transition requested against a transport session.
#[derive(Clone, Copy, Debug, PartialEq, Eq, PartialOrd, Ord, Structural)]
pub enum TransportSessionEvent {
    /// Begin signaling from idle or reconnecting.
    StartSignaling,
    /// Move from signaling into ICE gathering.
    StartIceGathering,
    /// Move from ICE gathering into connectivity checks.
    StartConnectivityChecks,
    /// Select direct ICE/STUN connectivity.
    SelectDirect,
    /// Legacy unsupported peer overlay relay selection.
    SelectOverlayRelay,
    /// Select encrypted TURN connectivity.
    SelectTurnRelay,
    /// Mark an active route disconnected.
    MarkDisconnected,
    /// Begin reconnection after disconnection.
    StartReconnecting,
    /// Mark the session failed.
    MarkFailed,
    /// Cancel any pending reconnect or active route.
    Cancel,
    /// Tear down this session and release route state.
    TearDown,
    /// Reset a failed or disconnected session back to idle.
    Reset,
}

/// Deterministic reconnect backoff policy for one transport session.
#[derive(Clone, Copy, Debug, PartialEq, Eq, Structural)]
pub struct ReconnectBackoffPolicy {
    /// Initial reconnect delay in milliseconds.
    pub initial_delay_ms: u64,
    /// Maximum reconnect delay in milliseconds.
    pub max_delay_ms: u64,
    /// Integer multiplier applied after each attempt.
    pub multiplier: u64,
    /// Maximum reconnect attempts before terminal failure.
    pub max_attempts: u32,
}

impl Default for ReconnectBackoffPolicy {
    fn default() -> (r: Self)
        ensures
            r == (ReconnectBackoffPolicy {
                initial_delay_ms: 250,
                max_delay_ms: 8_000,
                multiplier: 2,
                max_attempts: 8,
            }),
    {
        ReconnectBackoffPolicy {
            initial_delay_ms: 250,
            max_delay_ms: 8_000,
            multiplier: 2,
            max_attempts: 8,
        }
    }
}

pub open spec fn min_u64(a: u64, b: u64) -> u64 {
    if a <= b {
        a
    } else {
        b
    }
}

pub open spec fn saturating_mul_u64(a: u64, b: u64) -> u64 {
    if a * b > u64::MAX {
        u64::MAX
    } else {
        (a * b) as u64
    }
}

impl ReconnectBackoffPolicy {
    pub open spec fn is_valid(self) -> bool {
        self.initial_delay_ms != 0 && self.max_delay_ms >= self.initial_delay_ms
            && self.multiplier >= 1 && self.max_attempts != 0
    }

    /// One backoff step: multiply (saturating) and clamp to the maximum.
    pub open spec fn step(self, d: u64) -> u64 {
        min_u64(saturating_mul_u64(d, self.multiplier), self.max_delay_ms)
    }

    /// The delay after `k` backoff steps from the initial delay.
    pub open spec fn after_steps(self, k: nat) -> u64
        decreases k,
    {
        if k == 0 {
            self.initial_delay_ms
        } else {
            self.step(self.after_steps((k - 1) as nat))
        }
    }

    /// Delay owed to the one-based attempt `attempt`.
    pub open spec fn delay_spec(self, attempt: u32) -> u64 {
        let steps: nat = if attempt == 0 { 0 } else { (attempt - 1) as nat };
        min_u64(self.after_steps(steps), self.max_delay_ms)
    }

    /// Build a policy after validating monotonic finite backoff fields.
    pub fn new(initial_delay_ms: u64, max_delay_ms: u64, multiplier: u64, max_attempts: u32) -> (r:
        Result<Self, TransportSessionError>)
        ensures
            ({
                let p = ReconnectBackoffPolicy {
                    initial_delay_ms,
                    max_delay_ms,
                    multiplier,
                    max_attempts,
                };
                &&& p.is_valid() ==> r == Ok::<Self, TransportSessionError>(p)
                &&& !p.is_valid() ==> r == Err::<Self, TransportSessionError>(
                    TransportSessionError::InvalidReconnectPolicy,
                )
            }),
    {
        let policy = ReconnectBackoffPolicy { initial_delay_ms, max_delay_ms, multiplier, max_attempts };
        match policy.validate() {
            Err(e) => Err(e),
            Ok(()) => Ok(policy),
        }
    }

    fn validate(self) -> (r: Result<(), TransportSessionError>)
        ensures
            self.is_valid() ==> r is Ok,
            !self.is_valid() ==> r == Err::<(), TransportSessionError>(
                TransportSessionError::InvalidReconnectPolicy,
            ),
    {
        if self.initial_delay_ms == 0 || self.max_delay_ms < self.initial_delay_ms || self.multiplier
            < 1 || self.max_attempts == 0 {
            Err(TransportSessionError::InvalidReconnectPolicy)
        } else {
            Ok(())
        }
    }

    /// Delay for the next one-based reconnect attempt.
    pub fn delay_for_attempt(self, attempt: u32) -> (r: u64)
        ensures
            r == self.delay_spec(attempt),
    {
        let exponent: u32 = if attempt == 0 { 0 } else { attempt - 1 };
        let mut delay = self.initial_delay_ms;
        let mut i: u32 = 0;
        while i < exponent
            invariant
                i <= exponent,
                delay == self.after_steps(i as nat),
            decreases exponent - i,
        {
            let product: u64 = match delay.checked_mul(self.multiplier) {
                Some(p) => p,
                None => u64::MAX,
            };
            let next: u64 = if product <= self.max_delay_ms {
                product
            } else {
                self.max_delay_ms
            };
            if next == delay {
                proof {
                    self.lemma_fixed_point(i as nat, exponent as nat);
                }
                i = exponent;
            } else {
                delay = next;
                i = i + 1;
            }
        }
        if delay <= self.max_delay_ms {
            delay
        } else {
            self.max_delay_ms
        }
    }

    /// Once a step leaves the delay unchanged, every later step does too.
    proof fn lemma_fixed_point(self, k: nat, j: nat)
        requires
            k <= j,
            self.step(self.after_steps(k)) == self.after_steps(k),
        ensures
            self.after_steps(j) == self.after_steps(k),
        decreases j - k,
    {
        if j > k {
            self.lemma_fixed_point(k, (j - 1) as nat);
        }
    }
}

impl ReconnectBackoffPolicy {
    proof fn lemma_steps_within_max(self, k: nat)
        requires
            self.is_valid(),
        ensures
            self.after_steps(k) <= self.max_delay_ms,
        decreases k,
    {
        if k > 0 {
            self.lemma_steps_within_max((k - 1) as nat);
        }
    }

    /// The first reconnect waits the initial delay; each later attempt waits
    /// the previous delay times the policy's multiplier, capped at the maximum
    /// delay.
    pub proof fn law_backoff_multiplies_by_policy_multiplier(self, attempt: u32)
        requires
            self.is_valid(),
            1 <= attempt < u32::MAX,
        ensures
            self.delay_spec(1) == self.initial_delay_ms,
            self.delay_spec((attempt + 1) as u32) == if self.delay_spec(attempt) * self.multiplier
                >= self.max_delay_ms {
                self.max_delay_ms
            } else {
                (self.delay_spec(attempt) * self.multiplier) as u64
            },
    {
        let a = self.after_steps((attempt - 1) as nat);
        self.lemma_steps_within_max((attempt - 1) as nat);
        assert(self.after_steps(attempt as nat) == self.step(a));
        assert(((attempt + 1) as u32 - 1) as nat == attempt as nat);
        assert(self.delay_spec(attempt) == a);
    }
}

/// Decision returned when scheduling a reconnect attempt.
#[derive(Clone, Copy, Debug, PartialEq, Eq, Structural)]
pub struct ReconnectDecision {
    /// One-based reconnect attempt number.
    pub attempt: u32,
    /// Backoff delay before the caller should start the next attempt.
    pub delay_ms: u64,
}

/// Active route details included in status snapshots.
#[derive(Debug, PartialEq, Eq)]
pub struct TransportRouteStatus {
    /// Active route kind.
    pub route: TransportRoute,
    /// Endpoint or route descriptor selected for this session.
    pub endpoint: Endpoint,
    /// Planner report that selected the route, when selection came from a planner.
    pub route_report: Option<RouteReport>,
}

impl TransportRouteStatus {
    pub open spec fn same(&self, other: &Self) -> bool {
        self.route == other.route && self.endpoint == other.endpoint && match (
            self.route_report,
            other.route_report,
        ) {
            (Some(a), Some(b)) => a.same(&b),
            (None, None) => true,
            _ => false,
        }
    }
}

impl Clone for TransportRouteStatus {
    fn clone(&self) -> (r: Self)
        ensures
            r.same(self),
    {
        TransportRouteStatus {
            route: self.route,
            endpoint: self.endpoint.clone(),
            route_report: match &self.route_report {
                Some(rep) => Some(rep.clone()),
                None => None,
            },
        }
    }
}

/// Same status, comparing route reports by content.
pub open spec fn same_route(a: Option<TransportRouteStatus>, b: Option<TransportRouteStatus>) -> bool {
    match (a, b) {
        (Some(x), Some(y)) => x.same(&y),
        (None, None) => true,
        _ => false,
    }
}

/// Current snapshot schema version.
pub const SNAPSHOT_SCHEMA_VERSION: u16 = 1;

/// Serializable transport-session status for later UI integration.
#[derive(Debug, PartialEq, Eq)]
pub struct TransportSessionSnapshot {
    /// Snapshot schema version for UI consumers.
    pub schema_version: u16,
    /// Current lifecycle state.
    pub state: TransportSessionState,
    /// Active route details when connected.
    pub route: Option<TransportRouteStatus>,
    /// Number of reconnection attempts started since the last reset.
    pub reconnect_attempts: u32,
    /// Last failure or disconnection reason surfaced by the state machine.
    pub last_error: Option<String>,
}

impl TransportSessionSnapshot {
    /// Current snapshot schema version.
    pub const SCHEMA_VERSION: u16 = 1;

    /// Same status fields, comparing route reports by content.
    pub open spec fn same(&self, other: &Self) -> bool {
        self.schema_version == other.schema_version && self.state == other.state && same_route(
            self.route,
            other.route,
        ) && self.reconnect_attempts == other.reconnect_attempts && self.last_error
            == other.last_error
    }

    /// True when the snapshot represents an active data route.
    pub fn connected(&self) -> (b: bool)
        ensures
            b == (self.state.connected_spec() && self.route is Some),
    {
        self.state.is_connected() && self.route.is_some()
    }
}

/// Error returned by invalid transport-session transitions.
#[derive(Clone, Copy, Debug, PartialEq, Eq, Structural)]
pub enum TransportSessionError {
    /// The requested transition is not valid from the current state.
    InvalidTransition {
        /// Current state when the transition was requested.
        from: TransportSessionState,
        /// Requested event.
        event: TransportSessionEvent,
    },
    /// The route is not supported by the current fail-closed transport policy.
    UnsupportedRoute {
        /// Rejected route.
        route: TransportRoute,
    },
    /// Reconnect backoff policy is malformed.
    InvalidReconnectPolicy,
    /// Reconnect was requested after the policy attempt budget was exhausted.
    ReconnectAttemptsExhausted {
        /// Attempts already consumed.
        attempts: u32,
    },
}

/// Stateful transport session model for negotiation and route selection.
#[derive(Debug)]
pub struct TransportSession {
    state: TransportSessionState,
    route: Option<TransportRouteStatus>,
    reconnect_attempts: u32,
    last_error: Option<String>,
}

impl Default for TransportSession {
    fn default() -> (r: Self)
        ensures
            r.wf(),
            r.status() == TransportSession::idle_status(0),
    {
        Self::new()
    }
}

impl TransportSession {
    /// A route is held exactly while the session is connected; the session is
    /// never in the unsupported overlay-relay state; a held route carries no
    /// error.
    pub closed spec fn wf(&self) -> bool {
        &&& self.state.connected_spec() <==> self.route is Some
        &&& !(self.state is OverlayRelay)
        &&& self.route is Some ==> self.last_error is None
    }

    /// The status a snapshot reports.
    pub closed spec fn status(&self) -> TransportSessionSnapshot {
        TransportSessionSnapshot {
            schema_version: 1,
            state: self.state,
            route: self.route,
            reconnect_attempts: self.reconnect_attempts,
            last_error: self.last_error,
        }
    }

    /// The last error is exactly `reason`.
    pub open spec fn reason_recorded(&self, reason: Seq<char>) -> bool {
        self.status().last_error matches Some(m) && m@ == reason
    }

    /// Status after a reset with `attempts` reconnects counted.
    pub open spec fn idle_status(attempts: u32) -> TransportSessionSnapshot {
        TransportSessionSnapshot {
            schema_version: 1,
            state: TransportSessionState::Idle,
            route: None,
            reconnect_attempts: attempts,
            last_error: None,
        }
    }

    /// The error for `event` in the current state.
    pub open spec fn rejected(&self, event: TransportSessionEvent) -> TransportSessionError {
        TransportSessionError::InvalidTransition { from: self.status().state, event }
    }

    /// A transition to `status` took place and the snapshot shows it.
    pub open spec fn moved_to(
        &self,
        r: Result<TransportSessionSnapshot, TransportSessionError>,
        status: TransportSessionSnapshot,
    ) -> bool {
        self.wf() && self.status() == status && (r matches Ok(s) && s.same(&status))
    }

    /// The transition was refused with `e` and nothing changed.
    pub open spec fn refused(
        &self,
        old_status: TransportSessionSnapshot,
        r: Result<TransportSessionSnapshot, TransportSessionError>,
        e: TransportSessionError,
    ) -> bool {
        self.wf() && self.status() == old_status && r == Err::<
            TransportSessionSnapshot,
            TransportSessionError,
        >(e)
    }

    /// Create a new idle transport session.
    pub fn new() -> (r: Self)
        ensures
            r.wf(),
            r.status() == Self::idle_status(0),
    {
        TransportSession {
            state: TransportSessionState::Idle,
            route: None,
            reconnect_attempts: 0,
            last_error: None,
        }
    }

    /// Current lifecycle state.
    pub fn state(&self) -> (r: TransportSessionState)
        ensures
            r == self.status().state,
    {
        self.state
    }

    /// Every session that the public operations produce (each keeps `wf`,
    /// starting from `new`) reports snapshots of schema 1, holds a route
    /// exactly while connected, is never in the overlay-relay state, and holds
    /// no error while it holds a route.
    pub proof fn law_reachable_session_snapshot(s: TransportSession)
        requires
            s.wf(),
        ensures
            s.status().schema_version == 1,
            s.status().route is Some <==> (s.status().state is Direct || s.status().state is TurnRelay),
            !(s.status().state is OverlayRelay),
            s.status().route is Some ==> s.status().last_error is None,
    {
    }

    /// Build a serializable snapshot of the current session status.
    pub fn snapshot(&self) -> (r: TransportSessionSnapshot)
        ensures
            r.same(&self.status()),
    {
        TransportSessionSnapshot {
            schema_version: SNAPSHOT_SCHEMA_VERSION,
            state: self.state,
            route: match &self.route {
                Some(rs) => Some(rs.clone()),
                None => None,
            },
            reconnect_attempts: self.reconnect_attempts,
            last_error: match &self.last_error {
                Some(e) => Some(e.clone()),
                None => None,
            },
        }
    }

    fn invalid_transition(&self, event: TransportSessionEvent) -> (r: TransportSessionError)
        ensures
            r == self.rejected(event),
    {
        TransportSessionError::InvalidTransition { from: self.state, event }
    }

    /// Begin signaling from idle or reconnecting.
    pub fn begin_signaling(&mut self) -> (r: Result<TransportSessionSnapshot, TransportSessionError>)
        requires
            old(self).wf(),
        ensures
            (old(self).status().state is Idle || old(self).status().state is Reconnecting) ==> final(self).moved_to(
                r,
                TransportSessionSnapshot {
                    state: TransportSessionState::Signaling,
                    route: None,
                    last_error: None,
                    ..old(self).status()
                },
            ),
            !(old(self).status().state is Idle || old(self).status().state is Reconnecting) ==> final(self).refused(old(self).status(), r, old(self).rejected(TransportSessionEvent::StartSignaling)),
    {
        match self.state {
            TransportSessionState::Idle | TransportSessionState::Reconnecting => {},
            _ => return Err(self.invalid_transition(TransportSessionEvent::StartSignaling)),
        }
        self.route = None;
        self.last_error = None;
        self.state = TransportSessionState::Signaling;
        Ok(self.snapshot())
    }

    /// Move from signaling to ICE gathering.
    pub fn begin_ice_gathering(&mut self) -> (r: Result<TransportSessionSnapshot, TransportSessionError>)
        requires
            old(self).wf(),
        ensures
            old(self).status().state is Signaling ==> final(self).moved_to(
                r,
                TransportSessionSnapshot { state: TransportSessionState::IceGathering, ..old(self).status() },
            ),
            !(old(self).status().state is Signaling) ==> final(self).refused(
                old(self).status(),
                r,
                old(self).rejected(TransportSessionEvent::StartIceGathering),
            ),
    {
        if self.state != TransportSessionState::Signaling {
            return Err(self.invalid_transition(TransportSessionEvent::StartIceGathering));
        }
        self.state = TransportSessionState::IceGathering;
        Ok(self.snapshot())
    }

    /// Move from ICE gathering to connectivity checks.
    pub fn begin_checking(&mut self) -> (r: Result<TransportSessionSnapshot, TransportSessionError>)
        requires
            old(self).wf(),
        ensures
            old(self).status().state is IceGathering ==> final(self).moved_to(
                r,
                TransportSessionSnapshot { state: TransportSessionState::Checking, ..old(self).status() },
            ),
            !(old(self).status().state is IceGathering) ==> final(self).refused(
                old(self).status(),
                r,
                old(self).rejected(TransportSessionEvent::StartConnectivityChecks),
            ),
    {
        if self.state != TransportSessionState::IceGathering {
            return Err(self.invalid_transition(TransportSessionEvent::StartConnectivityChecks));
        }
        self.state = TransportSessionState::Checking;
        Ok(self.snapshot())
    }

    /// The outcome of selecting `route` at `endpoint` with an optional planner report.
    pub open spec fn selected(
        &self,
        old_session: &Self,
        route: TransportRoute,
        endpoint: Endpoint,
        report: Option<RouteReport>,
        r: Result<TransportSessionSnapshot, TransportSessionError>,
    ) -> bool {
        if route is OverlayRelay {
            self.refused(
                old_session.status(),
                r,
                TransportSessionError::UnsupportedRoute { route: TransportRoute::OverlayRelay },
            )
        } else if old_session.status().state is Checking {
            &&& self.wf()
            &&& self.status().schema_version == 1
            &&& self.status().state == route.state_of()
            &&& self.status().reconnect_attempts == old_session.status().reconnect_attempts
            &&& self.status().last_error is None
            &&& self.status().route matches Some(rs) && rs.route == route && rs.endpoint == endpoint
                && match (rs.route_report, report) {
                (Some(a), Some(b)) => a.same(&b),
                (None, None) => true,
                _ => false,
            }
            &&& r matches Ok(s) && s.same(&self.status())
        } else {
            self.refused(old_session.status(), r, old_session.rejected(route.event_of()))
        }
    }

    /// Select a direct ICE/STUN route from the checking state.
    pub fn select_direct(&mut self, endpoint: Endpoint) -> (r: Result<
        TransportSessionSnapshot,
        TransportSessionError,
    >)
        requires
            old(self).wf(),
        ensures
            final(self).selected(&old(self), TransportRoute::Direct, endpoint, None, r),
    {
        self.select_route(TransportRoute::Direct, endpoint, None)
    }

    /// Reject the legacy overlay relay route; only direct WebRTC or configured TURN is allowed.
    pub fn select_overlay_relay(&mut self, endpoint: Endpoint) -> (r: Result<
        TransportSessionSnapshot,
        TransportSessionError,
    >)
        requires
            old(self).wf(),
        ensures
            final(self).refused(
                old(self).status(),
                r,
                TransportSessionError::UnsupportedRoute { route: TransportRoute::OverlayRelay },
            ),
    {
        Err(TransportSessionError::UnsupportedRoute { route: TransportRoute::OverlayRelay })
    }

    /// Select an encrypted TURN relay route from the checking state.
    pub fn select_turn_relay(&mut self, endpoint: Endpoint) -> (r: Result<
        TransportSessionSnapshot,
        TransportSessionError,
    >)
        requires
            old(self).wf(),
        ensures
            final(self).selected(&old(self), TransportRoute::TurnRelay, endpoint, None, r),
    {
        self.select_route(TransportRoute::TurnRelay, endpoint, None)
    }

    /// Select the route produced by the fallback planner from the checking state.
    pub fn select_connectivity_plan(&mut self, plan: ConnectivityPlan) -> (r: Result<
        TransportSessionSnapshot,
        TransportSessionError,
    >)
        requires
            old(self).wf(),
        ensures
            exists|report: RouteReport|
                report.selected == plan.selected && report.endpoint == plan.endpoint
                    && report.attempted_legs@ == plan.legs() && report.ciphertext_only_relay_legs
                    == plan.relay_ok() && report.limitation@
                    == crate::transport::route_limitation() && #[trigger] final(self).selected(
                    &old(self),
                    TransportRoute::of_leg(plan.selected),
                    plan.endpoint,
                    Some(report),
                    r,
                ),
    {
        let route = TransportRoute::from_fallback_leg(plan.selected);
        let endpoint = plan.endpoint.clone();
        let report = plan.route_report();
        self.select_route(route, endpoint, Some(report))
    }

    /// Mark an active route disconnected.
    pub fn mark_disconnected(&mut self, reason: &str) -> (r: Result<
        TransportSessionSnapshot,
        TransportSessionError,
    >)
        requires
            old(self).wf(),
        ensures
            ({
                let s = old(self).status().state;
                s is Direct || s is OverlayRelay || s is TurnRelay
            }) ==> final(self).reason_recorded(reason@) && final(self).moved_to(
                r,
                TransportSessionSnapshot {
                    state: TransportSessionState::Disconnected,
                    route: None,
                    last_error: final(self).status().last_error,
                    ..old(self).status()
                },
            ),
            !({
                let s = old(self).status().state;
                s is Direct || s is OverlayRelay || s is TurnRelay
            }) ==> final(self).refused(
                old(self).status(),
                r,
                old(self).rejected(TransportSessionEvent::MarkDisconnected),
            ),
    {
        match self.state {
            TransportSessionState::Direct
            | TransportSessionState::OverlayRelay
            | TransportSessionState::TurnRelay => {},
            _ => return Err(self.invalid_transition(TransportSessionEvent::MarkDisconnected)),
        }
        self.route = None;
        self.last_error = Some(String::from_str(reason));
        self.state = TransportSessionState::Disconnected;
        Ok(self.snapshot())
    }

    /// Begin reconnection after a disconnection.
    pub fn begin_reconnecting(&mut self) -> (r: Result<TransportSessionSnapshot, TransportSessionError>)
        requires
            old(self).wf(),
        ensures
            old(self).status().state is Disconnected ==> final(self).moved_to(
                r,
                TransportSessionSnapshot {
                    state: TransportSessionState::Reconnecting,
                    reconnect_attempts: if old(self).status().reconnect_attempts == u32::MAX {
                        u32::MAX
                    } else {
                        (old(self).status().reconnect_attempts + 1) as u32
                    },
                    ..old(self).status()
                },
            ),
            !(old(self).status().state is Disconnected) ==> final(self).refused(
                old(self).status(),
                r,
                old(self).rejected(TransportSessionEvent::StartReconnecting),
            ),
    {
        if self.state != TransportSessionState::Disconnected {
            return Err(self.invalid_transition(TransportSessionEvent::StartReconnecting));
        }
        self.reconnect_attempts = self.reconnect_attempts.saturating_add(1);
        self.state = TransportSessionState::Reconnecting;
        Ok(self.snapshot())
    }

    /// Schedule the next reconnect attempt and return the deterministic backoff delay.
    pub fn schedule_reconnect(&mut self, policy: ReconnectBackoffPolicy) -> (r: Result<
        ReconnectDecision,
        TransportSessionError,
    >)
        requires
            old(self).wf(),
        ensures
            final(self).wf(),
            !policy.is_valid() ==> r == Err::<ReconnectDecision, TransportSessionError>(
                TransportSessionError::InvalidReconnectPolicy,
            ) && final(self).status() == old(self).status(),
            policy.is_valid() && !(old(self).status().state is Disconnected) ==> r == Err::<
                ReconnectDecision,
                TransportSessionError,
            >(old(self).rejected(TransportSessionEvent::StartReconnecting)) && final(self).status()
                == old(self).status(),
            ({
                let n = old(self).status().reconnect_attempts;
                let next: u32 = if n == u32::MAX { u32::MAX } else { (n + 1) as u32 };
                &&& policy.is_valid() && old(self).status().state is Disconnected && next
                    > policy.max_attempts ==> r == Err::<ReconnectDecision, TransportSessionError>(
                    TransportSessionError::ReconnectAttemptsExhausted { attempts: n },
                ) && final(self).status().state is Failed && final(self).status().route is None
                    && final(self).status().reconnect_attempts == n && final(self).reason_recorded("reconnect attempts exhausted"@)
                &&& policy.is_valid() && old(self).status().state is Disconnected && next
                    <= policy.max_attempts ==> r == Ok::<ReconnectDecision, TransportSessionError>(
                    ReconnectDecision { attempt: next, delay_ms: policy.delay_spec(next) },
                ) && final(self).status() == (TransportSessionSnapshot {
                    state: TransportSessionState::Reconnecting,
                    reconnect_attempts: next,
                    ..old(self).status()
                })
            }),
    {
        match policy.validate() {
            Err(e) => return Err(e),
            Ok(()) => {},
        }
        if self.state != TransportSessionState::Disconnected {
            return Err(self.invalid_transition(TransportSessionEvent::StartReconnecting));
        }
        let next_attempt = self.reconnect_attempts.saturating_add(1);
        if next_attempt > policy.max_attempts {
            self.route = None;
            self.last_error = Some(text("reconnect attempts exhausted"));
            self.state = TransportSessionState::Failed;
            return Err(
                TransportSessionError::ReconnectAttemptsExhausted { attempts: self.reconnect_attempts },
            );
        }
        self.reconnect_attempts = next_attempt;
        self.state = TransportSessionState::Reconnecting;
        Ok(ReconnectDecision { attempt: next_attempt, delay_ms: policy.delay_for_attempt(next_attempt) })
    }

    /// Cancel this session from any non-terminal state.
    pub fn cancel(&mut self, reason: &str) -> (r: Result<TransportSessionSnapshot, TransportSessionError>)
        requires
            old(self).wf(),
        ensures
            !(old(self).status().state is Failed || old(self).status().state is Cancelled)
                ==> final(self).reason_recorded(reason@) && final(self).moved_to(
                r,
                TransportSessionSnapshot {
                    state: TransportSessionState::Cancelled,
                    route: None,
                    last_error: final(self).status().last_error,
                    ..old(self).status()
                },
            ),
            (old(self).status().state is Failed || old(self).status().state is Cancelled) ==> final(self).refused(old(self).status(), r, old(self).rejected(TransportSessionEvent::Cancel)),
    {
        match self.state {
            TransportSessionState::Failed | TransportSessionState::Cancelled => {
                return Err(self.invalid_transition(TransportSessionEvent::Cancel));
            },
            _ => {},
        }
        self.route = None;
        self.last_error = Some(String::from_str(reason));
        self.state = TransportSessionState::Cancelled;
        Ok(self.snapshot())
    }

    /// Tear down this session and release route state. Idempotent after cancellation.
    pub fn tear_down(&mut self, reason: &str) -> (r: Result<TransportSessionSnapshot, TransportSessionError>)
        requires
            old(self).wf(),
        ensures
            !(old(self).status().state is Failed) ==> final(self).reason_recorded(reason@) && final(self).moved_to(
                r,
                TransportSessionSnapshot {
                    state: TransportSessionState::Cancelled,
                    route: None,
                    last_error: final(self).status().last_error,
                    ..old(self).status()
                },
            ),
            old(self).status().state is Failed ==> final(self).refused(
                old(self).status(),
                r,
                old(self).rejected(TransportSessionEvent::TearDown),
            ),
    {
        if self.state == TransportSessionState::Failed {
            return Err(self.invalid_transition(TransportSessionEvent::TearDown));
        }
        self.route = None;
        self.last_error = Some(String::from_str(reason));
        self.state = TransportSessionState::Cancelled;
        Ok(self.snapshot())
    }

    /// Mark the session failed until it is reset.
    pub fn fail(&mut self, reason: &str) -> (r: Result<TransportSessionSnapshot, TransportSessionError>)
        requires
            old(self).wf(),
        ensures
            !(old(self).status().state is Failed) ==> final(self).reason_recorded(reason@) && final(self).moved_to(
                r,
                TransportSessionSnapshot {
                    state: TransportSessionState::Failed,
                    route: None,
                    last_error: final(self).status().last_error,
                    ..old(self).status()
                },
            ),
            old(self).status().state is Failed ==> final(self).refused(
                old(self).status(),
                r,
                old(self).rejected(TransportSessionEvent::MarkFailed),
            ),
    {
        if self.state == TransportSessionState::Failed {
            return Err(self.invalid_transition(TransportSessionEvent::MarkFailed));
        }
        self.route = None;
        self.last_error = Some(String::from_str(reason));
        self.state = TransportSessionState::Failed;
        Ok(self.snapshot())
    }

    /// Reset a failed or disconnected session back to idle.
    pub fn reset(&mut self) -> (r: Result<TransportSessionSnapshot, TransportSessionError>)
        requires
            old(self).wf(),
        ensures
            ({
                let s = old(self).status().state;
                s is Disconnected || s is Failed || s is Cancelled
            }) ==> final(self).moved_to(r, Self::idle_status(0)),
            !({
                let s = old(self).status().state;
                s is Disconnected || s is Failed || s is Cancelled
            }) ==> final(self).refused(
                old(self).status(),
                r,
                old(self).rejected(TransportSessionEvent::Reset),
            ),
    {
        match self.state {
            TransportSessionState::Disconnected
            | TransportSessionState::Failed
            | TransportSessionState::Cancelled => {},
            _ => return Err(self.invalid_transition(TransportSessionEvent::Reset)),
        }
        self.state = TransportSessionState::Idle;
        self.route = None;
        self.reconnect_attempts = 0;
        self.last_error = None;
        Ok(self.snapshot())
    }

    fn select_route(
        &mut self,
        route: TransportRoute,
        endpoint: Endpoint,
        route_report: Option<RouteReport>,
    ) -> (r: Result<TransportSessionSnapshot, TransportSessionError>)
        requires
            old(self).wf(),
        ensures
            final(self).selected(&old(self), route, endpoint, route_report, r),
    {
        if route == TransportRoute::OverlayRelay {
            return Err(TransportSessionError::UnsupportedRoute { route });
        }
        if self.state != TransportSessionState::Checking {
            let event = match route {
                TransportRoute::Direct => TransportSessionEvent::SelectDirect,
                TransportRoute::OverlayRelay => TransportSessionEvent::SelectOverlayRelay,
                TransportRoute::TurnRelay => TransportSessionEvent::SelectTurnRelay,
            };
            return Err(self.invalid_transition(event));
        }
        let ghost rep = route_report;
        self.route = Some(TransportRouteStatus { route, endpoint, route_report });
        self.last_error = None;
        self.state = route.state();
        proof {
            match rep {
                Some(x) => {
                    assert(x.same(&x));
                },
                None => {},
            }
        }
        Ok(self.snapshot())
    }
}

} // verus!
