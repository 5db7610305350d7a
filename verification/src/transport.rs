//! Deterministic fail-closed connectivity planning: direct/STUN first, then
//! configured TURN, never a plaintext-carrying relay.
use vstd::prelude::*;
use crate::session::TransportSessionError;
use crate::text::{bytes_contain, bytes_contains, contains_str, str_contains, str_equal, text};

verus! {

/// Transport address or provider URI.
#[derive(Debug, PartialEq, Eq)]
pub struct Endpoint(pub String);

impl Clone for Endpoint {
    fn clone(&self) -> (r: Self)
        ensures
            r == *self,
    {
        Endpoint(self.0.clone())
    }
}

impl Endpoint {
    /// Construct an endpoint from text.
    pub fn new(value: &str) -> (r: Self)
        ensures
            r.0@ == value@,
    {
        Endpoint(String::from_str(value))
    }
}

/// Error returned by transport primitives and fallback planning.
#[derive(Debug, PartialEq, Eq)]
pub enum TransportError {
    /// A concrete transport path is unavailable.
    Unavailable(String),
    /// Local socket I/O failed.
    Io(String),
    /// A conformance gate caught caller-supplied plaintext in relay-visible bytes.
    PlaintextLeak,
    /// Every configured WebRTC path failed under the simulated NAT condition.
    NoViablePath,
    /// ICE/STUN/TURN endpoint policy is malformed or unsupported.
    InvalidIcePolicy(String),
    /// Connectivity/signaling policy is malformed or unsupported.
    InvalidConnectivityPolicy(String),
    /// Signaling adapter contract failed.
    SignalingAdapter(String),
    /// A transport session event was invalid for the current state.
    InvalidSessionTransition(TransportSessionError),
}

impl TransportError {
    /// Human-readable description of the error.
    pub fn message(&self) -> (r: String)
        ensures
            self is PlaintextLeak ==> r@ == "relay-visible payload contains forbidden plaintext"@,
            self is NoViablePath ==> r@ == "no viable direct WebRTC or configured TURN path"@,
            self matches TransportError::InvalidIcePolicy(m) ==> r@ == "invalid ICE endpoint policy: "@ + m@,
            self matches TransportError::InvalidConnectivityPolicy(m) ==> r@ == "invalid connectivity policy: "@ + m@,
            self matches TransportError::Unavailable(m) ==> r@ == "unavailable: "@ + m@,
            self matches TransportError::Io(m) ==> r@ == "local socket I/O failed: "@ + m@,
            self matches TransportError::SignalingAdapter(m) ==> r@ == "signaling adapter failed: "@ + m@,
    {
        match self {
            TransportError::Unavailable(m) => crate::text::join2("unavailable: ", m.as_str()),
            TransportError::Io(m) => crate::text::join2("local socket I/O failed: ", m.as_str()),
            TransportError::PlaintextLeak => text("relay-visible payload contains forbidden plaintext"),
            TransportError::NoViablePath => text("no viable direct WebRTC or configured TURN path"),
            TransportError::InvalidIcePolicy(m) => crate::text::join2("invalid ICE endpoint policy: ", m.as_str()),
            TransportError::InvalidConnectivityPolicy(m) => crate::text::join2(
                "invalid connectivity policy: ",
                m.as_str(),
            ),
            TransportError::SignalingAdapter(m) => crate::text::join2("signaling adapter failed: ", m.as_str()),
            TransportError::InvalidSessionTransition(_) => text("invalid transport session transition"),
        }
    }
}

/// Ordered connectivity legs from the approved plan.
#[derive(Clone, Copy, Debug, PartialEq, Eq, PartialOrd, Ord, Structural)]
pub enum FallbackLeg {
    /// Direct NAT traversal through STUN/ICE.
    Stun,
    /// Legacy peer overlay route. Kept for old diagnostics only; the planner no longer selects it.
    RelayOverlay,
    /// Provider TURN relay carrying end-to-end ciphertext.
    Turn,
}

/// Deterministic NAT/test condition for the fallback planner.
#[derive(Clone, Copy, Debug, PartialEq, Eq, Structural)]
pub struct SimulatedNat {
    /// Whether STUN/ICE direct traversal succeeds.
    pub stun_available: bool,
    /// Legacy overlay flag retained for old fixtures; ignored by the current planner.
    pub overlay_available: bool,
    /// Whether TURN is reachable as the final fallback.
    pub turn_available: bool,
}

impl SimulatedNat {
    /// Scenario where direct STUN traversal succeeds.
    pub fn direct() -> (r: Self)
        ensures
            r == (SimulatedNat { stun_available: true, overlay_available: true, turn_available: true }),
    {
        SimulatedNat { stun_available: true, overlay_available: true, turn_available: true }
    }

    /// Legacy overlay-only scenario. Current policy must fail unless TURN is configured.
    pub fn overlay_only() -> (r: Self)
        ensures
            r == (SimulatedNat { stun_available: false, overlay_available: true, turn_available: false }),
    {
        SimulatedNat { stun_available: false, overlay_available: true, turn_available: false }
    }

    /// Scenario where TURN is required.
    pub fn turn_only() -> (r: Self)
        ensures
            r == (SimulatedNat { stun_available: false, overlay_available: false, turn_available: true }),
    {
        SimulatedNat { stun_available: false, overlay_available: false, turn_available: true }
    }
}

/// Owner/group-custom endpoint overrides.
#[derive(Debug, PartialEq, Eq)]
pub struct EndpointOverrides {
    /// Preferred STUN provider URI.
    pub stun: Option<Endpoint>,
    /// Preferred TURN provider URI.
    pub turn: Option<Endpoint>,
}

impl Clone for EndpointOverrides {
    fn clone(&self) -> (r: Self)
        ensures
            r == *self,
    {
        EndpointOverrides { stun: clone_endpoint(&self.stun), turn: clone_endpoint(&self.turn) }
    }
}

fn clone_endpoint(e: &Option<Endpoint>) -> (r: Option<Endpoint>)
    ensures
        r == *e,
{
    match e {
        Some(x) => Some(x.clone()),
        None => None,
    }
}

impl EndpointOverrides {
    /// Build overrides with both STUN and TURN endpoints.
    pub fn new(stun: Option<Endpoint>, turn: Option<Endpoint>) -> (r: Self)
        ensures
            r.stun == stun,
            r.turn == turn,
    {
        EndpointOverrides { stun, turn }
    }
}

/// Placeholder TURN endpoint used when no relay credentials have been configured.
pub open spec fn unconfigured_turn_endpoint() -> Seq<char> {
    "turn:unconfigured.discrypt.invalid"@
}

/// Connectivity configuration used by the fallback planner.
#[derive(Debug, PartialEq, Eq)]
pub struct ConnectivityConfig {
    /// Default STUN endpoint.
    pub default_stun: Endpoint,
    /// Default TURN endpoint.
    pub default_turn: Endpoint,
    /// Optional owner/group custom endpoint overrides.
    pub overrides: EndpointOverrides,
}

impl Clone for ConnectivityConfig {
    fn clone(&self) -> (r: Self)
        ensures
            r == *self,
    {
        ConnectivityConfig {
            default_stun: self.default_stun.clone(),
            default_turn: self.default_turn.clone(),
            overrides: self.overrides.clone(),
        }
    }
}

impl Default for ConnectivityConfig {
    fn default() -> (r: Self)
        ensures
            r.default_stun.0@ == "stun:stun.l.google.com:19302"@,
            r.default_turn.0@ == unconfigured_turn_endpoint(),
            r.overrides.stun is None,
            r.overrides.turn is None,
    {
        ConnectivityConfig {
            default_stun: Endpoint::new("stun:stun.l.google.com:19302"),
            default_turn: Endpoint::new("turn:unconfigured.discrypt.invalid"),
            overrides: EndpointOverrides::new(None, None),
        }
    }
}

impl ConnectivityConfig {
    /// Placeholder TURN endpoint used when no relay credentials have been configured.
    pub const UNCONFIGURED_TURN_ENDPOINT: &'static str = "turn:unconfigured.discrypt.invalid";

    pub open spec fn effective_stun(&self) -> Endpoint {
        match self.overrides.stun {
            Some(e) => e,
            None => self.default_stun,
        }
    }

    pub open spec fn effective_turn(&self) -> Endpoint {
        match self.overrides.turn {
            Some(e) => e,
            None => self.default_turn,
        }
    }

    pub open spec fn turn_configured(&self) -> bool {
        self.overrides.turn is Some || self.default_turn.0@ != unconfigured_turn_endpoint()
    }

    /// Effective STUN endpoint after owner/group overrides.
    pub fn stun_endpoint(&self) -> (r: Endpoint)
        ensures
            r == self.effective_stun(),
    {
        match &self.overrides.stun {
            Some(e) => e.clone(),
            None => self.default_stun.clone(),
        }
    }

    /// Effective TURN endpoint after owner/group overrides.
    pub fn turn_endpoint(&self) -> (r: Endpoint)
        ensures
            r == self.effective_turn(),
    {
        match &self.overrides.turn {
            Some(e) => e.clone(),
            None => self.default_turn.clone(),
        }
    }

    /// True only when TURN relay metadata came from configured policy/credentials.
    pub fn turn_relay_configured(&self) -> (b: bool)
        ensures
            b == self.turn_configured(),
    {
        let placeholder = "turn:unconfigured.discrypt.invalid";
        self.overrides.turn.is_some() || !str_equal(self.default_turn.0.as_str(), placeholder)
    }
}

/// One attempted fallback leg.
#[derive(Debug, PartialEq, Eq)]
pub struct ConnectionAttempt {
    /// Leg attempted.
    pub leg: FallbackLeg,
    /// Endpoint or overlay route descriptor used for the leg.
    pub endpoint: Endpoint,
    /// Whether the infrastructure-visible bytes are application content.
    pub carries_content: bool,
    /// Whether this leg is constrained to ciphertext-only payloads.
    pub ciphertext_only: bool,
    /// Whether the leg succeeded.
    pub succeeded: bool,
}

impl Clone for ConnectionAttempt {
    fn clone(&self) -> (r: Self)
        ensures
            r == *self,
    {
        ConnectionAttempt {
            leg: self.leg,
            endpoint: self.endpoint.clone(),
            carries_content: self.carries_content,
            ciphertext_only: self.ciphertext_only,
            succeeded: self.succeeded,
        }
    }
}

/// The approved leg order: direct/STUN, then TURN.
pub open spec fn approved_leg(index: int) -> FallbackLeg {
    if index == 0 {
        FallbackLeg::Stun
    } else {
        FallbackLeg::Turn
    }
}

/// Legs follow the approved order and there are at most two of them.
pub open spec fn legs_in_order(legs: Seq<FallbackLeg>) -> bool {
    legs.len() <= 2 && forall|i: int| 0 <= i < legs.len() ==> #[trigger] legs[i] == approved_leg(i)
}

/// Whether a relay leg respects the ciphertext-only rule.
pub open spec fn leg_is_ciphertext_only(a: ConnectionAttempt) -> bool {
    match a.leg {
        FallbackLeg::Stun => !a.carries_content,
        FallbackLeg::Turn => a.ciphertext_only && !a.carries_content,
        FallbackLeg::RelayOverlay => false,
    }
}

/// Selected connectivity plan and attempted legs.
#[derive(Debug, PartialEq, Eq)]
pub struct ConnectivityPlan {
    /// Attempts in strict direct/STUN -> configured TURN order.
    pub attempts: Vec<ConnectionAttempt>,
    /// Winning leg.
    pub selected: FallbackLeg,
    /// Winning endpoint/route descriptor.
    pub endpoint: Endpoint,
}

impl ConnectivityPlan {
    pub open spec fn legs(&self) -> Seq<FallbackLeg> {
        self.attempts@.map_values(|a: ConnectionAttempt| a.leg)
    }

    pub open spec fn relay_ok(&self) -> bool {
        forall|i: int| 0 <= i < self.attempts@.len() ==> leg_is_ciphertext_only(
            #[trigger] self.attempts@[i],
        )
    }

    /// Return true when attempts preserve the approved direct/STUN -> configured TURN ordering.
    pub fn ordered_direct_turn(&self) -> (b: bool)
        ensures
            b == legs_in_order(self.legs()),
    {
        let n = self.attempts.len();
        assert(self.legs().len() == n);
        if n > 2 {
            return false;
        }
        let mut i: usize = 0;
        while i < n
            invariant
                n == self.attempts@.len(),
                n <= 2,
                i <= n,
                forall|j: int| 0 <= j < i ==> #[trigger] self.legs()[j] == approved_leg(j),
            decreases n - i,
        {
            let expected = if i == 0 { FallbackLeg::Stun } else { FallbackLeg::Turn };
            assert(self.legs()[i as int] == self.attempts@[i as int].leg);
            if self.attempts[i].leg != expected {
                return false;
            }
            i = i + 1;
        }
        true
    }

    /// Compatibility alias for older call sites; overlay is no longer part of the valid order.
    pub fn ordered_stun_overlay_turn(&self) -> (b: bool)
        ensures
            b == legs_in_order(self.legs()),
    {
        self.ordered_direct_turn()
    }

    /// Return true when TURN attempts do not carry plaintext content and no overlay route is selected.
    pub fn relay_legs_ciphertext_only(&self) -> (b: bool)
        ensures
            b == self.relay_ok(),
    {
        let n = self.attempts.len();
        let mut i: usize = 0;
        while i < n
            invariant
                n == self.attempts@.len(),
                i <= n,
                forall|j: int| 0 <= j < i ==> leg_is_ciphertext_only(#[trigger] self.attempts@[j]),
            decreases n - i,
        {
            let a = &self.attempts[i];
            let ok = match a.leg {
                FallbackLeg::Stun => !a.carries_content,
                FallbackLeg::Turn => a.ciphertext_only && !a.carries_content,
                FallbackLeg::RelayOverlay => false,
            };
            if !ok {
                return false;
            }
            i = i + 1;
        }
        true
    }

    /// Build an honest route report for UI/diagnostic surfaces.
    pub fn route_report(&self) -> (r: RouteReport)
        ensures
            r.selected == self.selected,
            r.endpoint == self.endpoint,
            r.attempted_legs@ == self.legs(),
            r.ciphertext_only_relay_legs == self.relay_ok(),
            r.limitation@ == route_limitation(),
    {
        let mut legs: Vec<FallbackLeg> = Vec::new();
        let n = self.attempts.len();
        let mut i: usize = 0;
        while i < n
            invariant
                n == self.attempts@.len(),
                i <= n,
                legs@ == self.legs().take(i as int),
            decreases n - i,
        {
            legs.push(self.attempts[i].leg);
            assert(self.legs().take(i + 1) =~= self.legs().take(i as int).push(self.attempts@[i as int].leg));
            i = i + 1;
        }
        assert(self.legs().take(n as int) =~= self.legs());
        RouteReport {
            selected: self.selected,
            endpoint: self.endpoint.clone(),
            attempted_legs: legs,
            ciphertext_only_relay_legs: self.relay_legs_ciphertext_only(),
            limitation: text("deterministic local-process conformance only; not a production NAT/pcap proof"),
        }
    }
}

/// Limitation copy carried by every route report.
pub open spec fn route_limitation() -> Seq<char> {
    "deterministic local-process conformance only; not a production NAT/pcap proof"@
}

/// Honest route report surfaced by harnesses and command-backed UI gates.
#[derive(Debug, PartialEq, Eq)]
pub struct RouteReport {
    /// Winning leg selected by the fallback planner.
    pub selected: FallbackLeg,
    /// Winning endpoint or route descriptor.
    pub endpoint: Endpoint,
    /// Attempted legs in order.
    pub attempted_legs: Vec<FallbackLeg>,
    /// Whether TURN legs are marked ciphertext-only and no overlay relay was selected.
    pub ciphertext_only_relay_legs: bool,
    /// Honest limitation copy for deterministic local tests.
    pub limitation: String,
}

impl RouteReport {
    /// Same selection, endpoint, legs, flag and limitation.
    pub open spec fn same(&self, other: &Self) -> bool {
        self.selected == other.selected && self.endpoint == other.endpoint
            && self.attempted_legs@ == other.attempted_legs@ && self.ciphertext_only_relay_legs
            == other.ciphertext_only_relay_legs && self.limitation == other.limitation
    }

    pub open spec fn is_honest_and_ordered(&self) -> bool {
        let legs = self.attempted_legs@;
        &&& legs.len() > 0
        &&& legs_in_order(legs)
        &&& legs.last() == self.selected
        &&& contains_str(self.limitation@, "local-process"@)
        &&& self.ciphertext_only_relay_legs
    }

    /// True when the report is ordered and includes the local-test limitation.
    pub fn honest_and_ordered(&self) -> (b: bool)
        ensures
            b == self.is_honest_and_ordered(),
    {
        let n = self.attempted_legs.len();
        if n == 0 || n > 2 {
            return false;
        }
        if self.attempted_legs[n - 1] != self.selected {
            return false;
        }
        let mut i: usize = 0;
        while i < n
            invariant
                n == self.attempted_legs@.len(),
                n <= 2,
                i <= n,
                forall|j: int| 0 <= j < i ==> #[trigger] self.attempted_legs@[j] == approved_leg(j),
            decreases n - i,
        {
            let expected = if i == 0 { FallbackLeg::Stun } else { FallbackLeg::Turn };
            if self.attempted_legs[i] != expected {
                return false;
            }
            i = i + 1;
        }
        str_contains(self.limitation.as_str(), "local-process") && self.ciphertext_only_relay_legs
    }
}

impl Clone for RouteReport {
    fn clone(&self) -> (r: Self)
        ensures
            r.same(self),
    {
        let legs = self.attempted_legs.clone();
        assert(legs@ =~= self.attempted_legs@);
        RouteReport {
            selected: self.selected,
            endpoint: self.endpoint.clone(),
            attempted_legs: legs,
            ciphertext_only_relay_legs: self.ciphertext_only_relay_legs,
            limitation: self.limitation.clone(),
        }
    }
}

/// Result of a socket-backed local-process adapter conformance run.
#[derive(Debug, PartialEq, Eq)]
pub struct LocalProcessConformance {
    /// Loopback socket endpoint used by the adapter.
    pub endpoint: Endpoint,
    /// Route report for the simulated NAT condition.
    pub route_report: RouteReport,
    /// Whether the ciphertext payload was delivered byte-for-byte.
    pub ciphertext_delivered: bool,
    /// Whether a caller-supplied plaintext sample was rejected before socket send.
    pub plaintext_rejected: bool,
    /// Number of bytes delivered over the local socket.
    pub delivered_len: usize,
}

impl LocalProcessConformance {
    /// True when socket delivery, plaintext rejection, and route reporting all pass.
    pub fn ready(&self) -> (b: bool)
        ensures
            b == (self.ciphertext_delivered && self.plaintext_rejected
                && self.route_report.is_honest_and_ordered()),
    {
        self.ciphertext_delivered && self.plaintext_rejected && self.route_report.honest_and_ordered()
    }

    /// Conformance record for a delivery of `ciphertext` that came back as `delivered`.
    pub fn from_delivery(
        endpoint: Endpoint,
        route_report: RouteReport,
        ciphertext: &[u8],
        delivered: &[u8],
        plaintext_rejected: bool,
    ) -> (r: Self)
        ensures
            r.endpoint == endpoint,
            r.route_report == route_report,
            r.ciphertext_delivered == (delivered@ == ciphertext@),
            r.plaintext_rejected == plaintext_rejected,
            r.delivered_len == delivered@.len(),
    {
        let same = delivered.len() == ciphertext.len() && crate::text::bytes_match_at(
            delivered,
            ciphertext,
            0,
        );
        proof {
            if same {
                assert(delivered@.subrange(0, ciphertext@.len() as int) =~= delivered@);
            }
            if delivered@ == ciphertext@ {
                assert(delivered@.subrange(0, ciphertext@.len() as int) =~= ciphertext@);
            }
        }
        LocalProcessConformance {
            endpoint,
            route_report,
            ciphertext_delivered: same,
            plaintext_rejected,
            delivered_len: delivered.len(),
        }
    }
}

/// Loopback adapter configuration used to prove local-process transport conformance.
#[derive(Debug, PartialEq, Eq)]
pub struct LocalProcessSocketAdapter {
    config: ConnectivityConfig,
    conditions: SimulatedNat,
    forbidden_plaintext: Vec<u8>,
}

impl LocalProcessSocketAdapter {
    pub closed spec fn forbidden(&self) -> Seq<u8> {
        self.forbidden_plaintext@
    }

    pub closed spec fn planner_config(&self) -> ConnectivityConfig {
        self.config
    }

    pub closed spec fn planner_nat(&self) -> SimulatedNat {
        self.conditions
    }

    /// Does `payload` visibly contain the forbidden sample.
    pub open spec fn leaks(&self, payload: Seq<u8>) -> bool {
        self.forbidden().len() != 0 && bytes_contain(payload, self.forbidden())
    }

    /// Create a local adapter bound to a fallback configuration and NAT scenario.
    pub fn new(config: ConnectivityConfig, conditions: SimulatedNat, forbidden_plaintext: Vec<u8>) -> (r: Self)
        ensures
            r.planner_config() == config,
            r.planner_nat() == conditions,
            r.forbidden() == forbidden_plaintext@,
    {
        LocalProcessSocketAdapter { config, conditions, forbidden_plaintext }
    }

    /// Everything a conformance run decides before it touches a socket: the
    /// ciphertext must be non-empty and free of the forbidden sample, the
    /// sample itself must be caught, and the planner must find a route.
    /// Returns whether the sample was rejected and the plan to report.
    pub fn prepare_conformance(&self, ciphertext: &[u8]) -> (r: Result<(bool, ConnectivityPlan), TransportError>)
        ensures
            ciphertext@.len() == 0 ==> (r matches Err(TransportError::Unavailable(m)) && m@ == "empty ciphertext"@),
            ciphertext@.len() != 0 && self.leaks(ciphertext@) ==> r == Err::<(bool, ConnectivityPlan), TransportError>(TransportError::PlaintextLeak),
            ciphertext@.len() != 0 && !self.leaks(ciphertext@) ==> match r {
                Ok((rejected, plan)) => rejected && plan_outcome(self.planner_config(), self.planner_nat(), Ok(plan)),
                Err(e) => plan_outcome(self.planner_config(), self.planner_nat(), Err(e)),
            },
    {
        if ciphertext.len() == 0 {
            return Err(TransportError::Unavailable(text("empty ciphertext")));
        }
        let rejected = match self.rejects_plaintext_sample() {
            Ok(b) => b,
            Err(e) => return Err(e),
        };
        match self.ensure_ciphertext_only(ciphertext) {
            Err(e) => return Err(e),
            Ok(()) => {},
        }
        match ConnectivityPlanner::plan(&self.config, self.conditions) {
            Ok(plan) => Ok((rejected, plan)),
            Err(e) => Err(e),
        }
    }

    fn rejects_plaintext_sample(&self) -> (r: Result<bool, TransportError>)
        ensures
            r == Ok::<bool, TransportError>(true),
    {
        if self.forbidden_plaintext.len() == 0 {
            return Ok(true);
        }
        match self.ensure_ciphertext_only(self.forbidden_plaintext.as_slice()) {
            Err(TransportError::PlaintextLeak) => Ok(true),
            Err(error) => Err(error),
            Ok(()) => {
                proof {
                    let f = self.forbidden_plaintext@;
                    assert(f.subrange(0, f.len() as int) =~= f);
                    assert(crate::text::bytes_occur_at(f, f, 0));
                }
                Ok(false)
            },
        }
    }

    fn ensure_ciphertext_only(&self, payload: &[u8]) -> (r: Result<(), TransportError>)
        ensures
            self.leaks(payload@) ==> r == Err::<(), TransportError>(TransportError::PlaintextLeak),
            !self.leaks(payload@) ==> r is Ok,
    {
        if self.forbidden_plaintext.len() != 0 && bytes_contains(
            payload,
            self.forbidden_plaintext.as_slice(),
        ) {
            Err(TransportError::PlaintextLeak)
        } else {
            Ok(())
        }
    }
}

/// What the planner returns for a configuration and NAT condition.
pub open spec fn plan_outcome(
    config: ConnectivityConfig,
    conditions: SimulatedNat,
    r: Result<ConnectivityPlan, TransportError>,
) -> bool {
    let stun = ConnectionAttempt {
        leg: FallbackLeg::Stun,
        endpoint: config.effective_stun(),
        carries_content: false,
        ciphertext_only: false,
        succeeded: conditions.stun_available,
    };
    let turn_ok = conditions.turn_available && config.turn_configured();
    let turn = ConnectionAttempt {
        leg: FallbackLeg::Turn,
        endpoint: config.effective_turn(),
        carries_content: false,
        ciphertext_only: true,
        succeeded: turn_ok,
    };
    if conditions.stun_available {
        r matches Ok(p) && p.attempts@ == seq![stun] && p.selected == FallbackLeg::Stun
            && p.endpoint == config.effective_stun()
    } else if turn_ok {
        r matches Ok(p) && p.attempts@ == seq![stun, turn] && p.selected == FallbackLeg::Turn
            && p.endpoint == config.effective_turn()
    } else {
        r == Err::<ConnectivityPlan, TransportError>(TransportError::NoViablePath)
    }
}

/// Stateless fail-closed WebRTC route planner.
pub struct ConnectivityPlanner;

impl ConnectivityPlanner {
    /// Resolve a path using strict direct/STUN -> configured TURN fallback.
    pub fn plan(config: &ConnectivityConfig, conditions: SimulatedNat) -> (r: Result<ConnectivityPlan, TransportError>)
        ensures
            plan_outcome(*config, conditions, r),
    {
        let mut attempts: Vec<ConnectionAttempt> = Vec::new();
        attempts.push(
            ConnectionAttempt {
                leg: FallbackLeg::Stun,
                endpoint: config.stun_endpoint(),
                carries_content: false,
                ciphertext_only: false,
                succeeded: conditions.stun_available,
            },
        );
        if conditions.stun_available {
            let endpoint = attempts[0].endpoint.clone();
            assert(attempts@ =~= seq![attempts@[0]]);
            return Ok(ConnectivityPlan { attempts, selected: FallbackLeg::Stun, endpoint });
        }
        let turn_ok = conditions.turn_available && config.turn_relay_configured();
        attempts.push(
            ConnectionAttempt {
                leg: FallbackLeg::Turn,
                endpoint: config.turn_endpoint(),
                carries_content: false,
                ciphertext_only: true,
                succeeded: turn_ok,
            },
        );
        if turn_ok {
            let endpoint = attempts[1].endpoint.clone();
            assert(attempts@ =~= seq![attempts@[0], attempts@[1]]);
            return Ok(ConnectivityPlan { attempts, selected: FallbackLeg::Turn, endpoint });
        }
        Err(TransportError::NoViablePath)
    }
}

/// Every plan the planner returns is in the approved order, keeps relay legs
/// ciphertext-only, and its report is honest and ordered.
pub proof fn law_planned_routes_are_honest(config: ConnectivityConfig, conditions: SimulatedNat, plan: ConnectivityPlan)
    requires
        plan_outcome(config, conditions, Ok(plan)),
    ensures
        legs_in_order(plan.legs()),
        plan.relay_ok(),
        plan.legs().len() > 0,
        plan.legs().last() == plan.selected,
        contains_str(route_limitation(), "local-process"@),
{
    let lim = route_limitation();
    let pat = "local-process"@;
    assert(crate::text::occurs_at(lim, pat, 14)) by {
        reveal_strlit("deterministic local-process conformance only; not a production NAT/pcap proof");
        reveal_strlit("local-process");
        assert(lim.subrange(14, 14 + pat.len() as int) =~= pat);
    }
    if conditions.stun_available {
        assert(plan.legs() =~= seq![FallbackLeg::Stun]);
    } else {
        assert(plan.legs() =~= seq![FallbackLeg::Stun, FallbackLeg::Turn]);
    }
}

} // verus!
