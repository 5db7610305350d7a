//! Peer-assisted encrypted overlay protocol contract.
//!
//! Data-only: validates the shape of relay frames without selecting routes,
//! forwarding bytes, or exposing any decrypt/key path.
use vstd::prelude::*;
use vstd::utf8::*;
use crate::digest::{be64, push_be64, push_bytes, push_str_bytes};
use crate::keyed::KeyedList;
use crate::policy::refused_with;
use crate::text::{all_ws, is_clean_label, is_trimmed, clean_label, join2, peers_view, str_equal, text, trimmed};
use crate::transport::TransportError;

verus! {

/// Serializable schema version for peer overlay protocol frames.
pub const PEER_OVERLAY_FRAME_SCHEMA_VERSION: u16 = 1;

/// Maximum peer-assisted relay hops allowed by the product plan.
pub const PEER_OVERLAY_MAX_RELAY_HOPS: u8 = 3;

/// `r` reports `f`: success when there is no fault, else the policy error.
pub open spec fn outcome<T>(r: Result<T, TransportError>, f: Option<Seq<char>>) -> bool {
    match f {
        None => r is Ok,
        Some(m) => refused_with(r, m),
    }
}

fn overlay_policy_error(message: &str) -> (e: TransportError)
    ensures
        e matches TransportError::InvalidConnectivityPolicy(m) && m@ == message@,
{
    TransportError::InvalidConnectivityPolicy(text(message))
}

/// Authenticated transport-level peer id: non-empty trimmed text.
#[derive(Debug, PartialEq, Eq)]
pub struct SignalingPeerId(pub String);

impl Clone for SignalingPeerId {
    fn clone(&self) -> (r: Self)
        ensures
            r == *self,
    {
        SignalingPeerId(self.0.clone())
    }
}

impl SignalingPeerId {
    /// Accept a non-empty, trimmed peer id.
    pub fn new(value: &str) -> (r: Result<Self, TransportError>)
        ensures
            outcome(r, if is_clean_label(value@) { None } else { Some("signaling peer id must be non-empty trimmed text"@) }),
            r matches Ok(p) ==> p.0@ == value@,
    {
        if !clean_label(value) {
            return Err(overlay_policy_error("signaling peer id must be non-empty trimmed text"));
        }
        Ok(SignalingPeerId(String::from_str(value)))
    }

    /// The id as text.
    pub fn as_str(&self) -> (r: &str)
        ensures
            r@ == self.0@,
    {
        self.0.as_str()
    }
}

/// Sixteen zero bytes.
pub open spec fn all_zero(b: Seq<u8>) -> bool {
    forall|i: int| 0 <= i < b.len() ==> #[trigger] b[i] == 0
}

fn is_all_zero(b: &[u8]) -> (r: bool)
    ensures
        r == all_zero(b@),
{
    let n = b.len();
    let mut i: usize = 0;
    while i < n
        invariant
            n == b@.len(),
            i <= n,
            forall|j: int| 0 <= j < i ==> #[trigger] b@[j] == 0,
        decreases n - i,
    {
        if b[i] != 0 {
            return false;
        }
        i = i + 1;
    }
    true
}

/// Opaque loop id used to suppress relay loops and duplicate attempts.
#[derive(Clone, Copy, Debug, PartialEq, Eq)]
pub struct PeerOverlayLoopId(pub [u8; 16]);

impl PeerOverlayLoopId {
    /// Validate that the loop id can identify a concrete send attempt.
    pub fn validate(&self) -> (r: Result<(), TransportError>)
        ensures
            outcome(r, if all_zero(self.0@) { Some("peer overlay loop id must not be all zero"@) } else { None }),
    {
        if is_all_zero(&self.0) {
            Err(overlay_policy_error("peer overlay loop id must not be all zero"))
        } else {
            Ok(())
        }
    }
}

/// Opaque ack id used to correlate receiver acknowledgements and redelivery.
#[derive(Clone, Copy, Debug, PartialEq, Eq)]
pub struct PeerOverlayAckId(pub [u8; 16]);

impl PeerOverlayAckId {
    /// Validate that the ack id can identify a concrete delivery attempt.
    pub fn validate(&self) -> (r: Result<(), TransportError>)
        ensures
            outcome(r, if all_zero(self.0@) { Some("peer overlay ack id must not be all zero"@) } else { None }),
    {
        if is_all_zero(&self.0) {
            Err(overlay_policy_error("peer overlay ack id must not be all zero"))
        } else {
            Ok(())
        }
    }
}

/// Why a label fails: empty, untrimmed, or longer than 128 bytes.
pub open spec fn label_fault(value: Seq<char>, label: Seq<char>) -> Option<Seq<char>> {
    if all_ws(value) || !is_trimmed(value) || encode_utf8(value).len() > 128 {
        Some(label + " must be non-empty trimmed text up to 128 bytes"@)
    } else {
        None
    }
}

pub(crate) fn validate_label(value: &str, label: &str) -> (r: Result<(), TransportError>)
    ensures
        outcome(r, label_fault(value@, label@)),
{
    if !clean_label(value) || value.as_bytes().len() > 128 {
        Err(TransportError::InvalidConnectivityPolicy(join2(label, " must be non-empty trimmed text up to 128 bytes")))
    } else {
        Ok(())
    }
}

/// Peer/device reference proven by backend/OpenMLS membership state.
#[derive(Debug, PartialEq, Eq)]
pub struct PeerOverlayPeerRef {
    /// Transport-level authenticated peer id.
    pub peer_id: SignalingPeerId,
    /// Backend/OpenMLS-governed member id.
    pub member_id: String,
    /// Backend/OpenMLS-governed device id.
    pub device_id: String,
    /// Group epoch where this peer is admitted.
    pub epoch: u64,
}

impl Clone for PeerOverlayPeerRef {
    fn clone(&self) -> (r: Self)
        ensures
            r == *self,
    {
        PeerOverlayPeerRef {
            peer_id: self.peer_id.clone(),
            member_id: self.member_id.clone(),
            device_id: self.device_id.clone(),
            epoch: self.epoch,
        }
    }
}

/// Same peer, member, device and epoch.
pub open spec fn same_ref(a: PeerOverlayPeerRef, b: PeerOverlayPeerRef) -> bool {
    a.peer_id.0@ == b.peer_id.0@ && a.member_id@ == b.member_id@ && a.device_id@ == b.device_id@
        && a.epoch == b.epoch
}

impl PeerOverlayPeerRef {
    /// Build a peer ref from admitted backend/OpenMLS state.
    pub fn new(peer_id: SignalingPeerId, member_id: &str, device_id: &str, epoch: u64) -> (r: Self)
        ensures
            r.peer_id == peer_id,
            r.member_id@ == member_id@,
            r.device_id@ == device_id@,
            r.epoch == epoch,
    {
        PeerOverlayPeerRef {
            peer_id,
            member_id: String::from_str(member_id),
            device_id: String::from_str(device_id),
            epoch,
        }
    }

    pub open spec fn shape_fault(&self) -> Option<Seq<char>> {
        if label_fault(self.member_id@, "peer overlay member id"@) is Some {
            label_fault(self.member_id@, "peer overlay member id"@)
        } else {
            label_fault(self.device_id@, "peer overlay device id"@)
        }
    }

    fn validate_shape(&self) -> (r: Result<(), TransportError>)
        ensures
            outcome(r, self.shape_fault()),
    {
        match validate_label(self.member_id.as_str(), "peer overlay member id") {
            Err(e) => return Err(e),
            Ok(()) => {},
        }
        validate_label(self.device_id.as_str(), "peer overlay device id")
    }
}

fn same_ref_exec(a: &PeerOverlayPeerRef, b: &PeerOverlayPeerRef) -> (r: bool)
    ensures
        r == same_ref(*a, *b),
{
    str_equal(a.peer_id.0.as_str(), b.peer_id.0.as_str()) && str_equal(a.member_id.as_str(), b.member_id.as_str())
        && str_equal(a.device_id.as_str(), b.device_id.as_str()) && a.epoch == b.epoch
}

/// Peer ids of a list of ids, as a set of texts.
pub open spec fn id_set(v: Seq<SignalingPeerId>) -> Set<Seq<char>> {
    v.map_values(|p: SignalingPeerId| p.0@).to_set()
}

fn contains_id(v: &Vec<SignalingPeerId>, id: &str) -> (b: bool)
    ensures
        b == id_set(v@).contains(id@),
{
    let n = v.len();
    let mut i: usize = 0;
    while i < n
        invariant
            n == v@.len(),
            i <= n,
            forall|j: int| 0 <= j < i ==> (#[trigger] v@[j]).0@ != id@,
        decreases n - i,
    {
        if str_equal(v[i].0.as_str(), id) {
            assert(v@.map_values(|p: SignalingPeerId| p.0@)[i as int] == id@);
            return true;
        }
        i = i + 1;
    }
    assert(!id_set(v@).contains(id@)) by {
        let m = v@.map_values(|p: SignalingPeerId| p.0@);
        if m.contains(id@) {
            let j = choose|j: int| 0 <= j < m.len() && m[j] == id@;
            assert(v@[j].0@ == id@);
        }
    }
    false
}

/// First reason an admitted-peer list is unacceptable at `epoch`, scanning
/// from position `i` with `seen` holding the ids already accepted.
pub open spec fn admitted_fault(
    peers: Seq<PeerOverlayPeerRef>,
    revoked: Set<Seq<char>>,
    epoch: u64,
    i: int,
    seen: Set<Seq<char>>,
) -> Option<Seq<char>>
    decreases peers.len() - i,
{
    if i >= peers.len() || i < 0 {
        if seen.len() < 2 {
            Some("peer overlay requires at least two admitted peers"@)
        } else {
            None
        }
    } else {
        let p = peers[i];
        if p.shape_fault() is Some {
            p.shape_fault()
        } else if p.epoch != epoch {
            Some("peer overlay admitted peer epoch must match current epoch"@)
        } else if revoked.contains(p.peer_id.0@) {
            Some("peer overlay admitted set must not include revoked peers"@)
        } else if seen.contains(p.peer_id.0@) {
            Some("peer overlay admitted peers must be unique"@)
        } else {
            admitted_fault(peers, revoked, epoch, i + 1, seen.insert(p.peer_id.0@))
        }
    }
}

/// Current admitted/revoked peer set supplied by backend/OpenMLS state.
#[derive(Debug)]
pub struct PeerOverlayAdmittedSet {
    /// Current group epoch for the frame validator.
    pub current_epoch: u64,
    admitted: KeyedList<PeerOverlayPeerRef>,
    revoked: Vec<SignalingPeerId>,
}

impl PeerOverlayAdmittedSet {
    pub closed spec fn wf(&self) -> bool {
        self.admitted.wf()
    }

    /// Admitted refs by peer id.
    pub closed spec fn admitted_refs(&self) -> Map<Seq<char>, PeerOverlayPeerRef> {
        self.admitted.view_map()
    }

    /// Current group epoch.
    pub closed spec fn epoch(&self) -> u64 {
        self.current_epoch
    }

    /// Revoked peer ids.
    pub closed spec fn revoked_ids(&self) -> Set<Seq<char>> {
        id_set(self.revoked@)
    }

    /// Build a peer set from admitted current-epoch refs and revoked peer ids.
    pub fn new(current_epoch: u64, admitted: Vec<PeerOverlayPeerRef>, revoked: Vec<SignalingPeerId>) -> (r: Result<
        Self,
        TransportError,
    >)
        ensures
            outcome(r, admitted_fault(admitted@, id_set(revoked@), current_epoch, 0, Set::empty())),
            r matches Ok(s) ==> s.wf() && s.epoch() == current_epoch && s.revoked_ids() == id_set(revoked@)
                && forall|k: Seq<char>| #[trigger] s.admitted_refs().contains_key(k) <==> exists|i: int|
                    0 <= i < admitted@.len() && admitted@[i].peer_id.0@ == k,
            r matches Ok(s) ==> forall|i: int|
                0 <= i < admitted@.len() ==> s.admitted_refs()[(#[trigger] admitted@[i]).peer_id.0@] == admitted@[i],
    {
        let mut map: KeyedList<PeerOverlayPeerRef> = KeyedList::new();
        let n = admitted.len();
        let ghost all = admitted@;
        let mut rest = admitted;
        let mut i: usize = 0;
        assert(map.view_map().dom() =~= Set::<Seq<char>>::empty());
        proof {
            crate::keyed::lemma_view_map_len(&map);
        }
        while i < n
            invariant
                n == all.len(),
                all == admitted@,
                i <= n,
                rest@ == all.skip(i as int),
                map.wf(),
                admitted_fault(all, id_set(revoked@), current_epoch, 0, Set::empty()) == admitted_fault(
                    all,
                    id_set(revoked@),
                    current_epoch,
                    i as int,
                    map.view_map().dom(),
                ),
                map.view_map().dom().finite(),
                map.view_map().dom().len() == map.items@.len(),
                forall|k: Seq<char>| #[trigger] map.view_map().contains_key(k) <==> exists|j: int|
                    0 <= j < i && all[j].peer_id.0@ == k,
                map.items@.len() == i,
                forall|j: int| 0 <= j < i ==> (#[trigger] map.items@[j]).1 == all[j] && map.items@[j].0@ == all[j].peer_id.0@,
            decreases n - i,
        {
            let peer = rest.remove(0);
            assert(peer == all[i as int]);
            match peer.validate_shape() {
                Err(e) => return Err(e),
                Ok(()) => {},
            }
            if peer.epoch != current_epoch {
                return Err(overlay_policy_error("peer overlay admitted peer epoch must match current epoch"));
            }
            if contains_id(&revoked, peer.peer_id.0.as_str()) {
                return Err(overlay_policy_error("peer overlay admitted set must not include revoked peers"));
            }
            if map.contains(peer.peer_id.0.as_str()) {
                return Err(overlay_policy_error("peer overlay admitted peers must be unique"));
            }
            let key = peer.peer_id.0.clone();
            let ghost before = map;
            map.push_new(key, peer);
            proof {
                assert(rest@ =~= all.skip(i + 1));
                assert(map.view_map().dom() =~= before.view_map().dom().insert(all[i as int].peer_id.0@)) by {
                    assert forall|k: Seq<char>| map.has(k) == (before.has(k) || k == all[i as int].peer_id.0@) by {
                        if map.has(k) {
                            let j = choose|j: int| 0 <= j < map.items@.len() && (#[trigger] map.items@[j]).0@ == k;
                            if j < before.items@.len() {
                                assert(before.items@[j] == map.items@[j]);
                            }
                        }
                        if before.has(k) {
                            let j = choose|j: int| 0 <= j < before.items@.len() && (#[trigger] before.items@[j]).0@ == k;
                            assert(map.items@[j] == before.items@[j]);
                        }
                        if k == all[i as int].peer_id.0@ {
                            assert(map.items@[before.items@.len() as int].0@ == k);
                        }
                    }
                }
                crate::keyed::lemma_view_map_len(&map);
                assert forall|k: Seq<char>| #[trigger] map.view_map().contains_key(k) <==> exists|j: int|
                    0 <= j < i + 1 && all[j].peer_id.0@ == k by {
                    if map.view_map().contains_key(k) && k != all[i as int].peer_id.0@ {
                        assert(before.view_map().contains_key(k));
                    }
                    if exists|j: int| 0 <= j < i + 1 && all[j].peer_id.0@ == k {
                        let j = choose|j: int| 0 <= j < i + 1 && all[j].peer_id.0@ == k;
                        if j < i {
                            assert(before.view_map().contains_key(k));
                        }
                    }
                }
            }
            i = i + 1;
        }
        if map.len() < 2 {
            proof {
                crate::keyed::lemma_view_map_len(&map);
            }
            return Err(overlay_policy_error("peer overlay requires at least two admitted peers"));
        }
        proof {
            crate::keyed::lemma_view_map_len(&map);
            assert forall|j: int| 0 <= j < all.len() implies map.view_map()[(#[trigger] all[j]).peer_id.0@] == all[j] by {
                crate::keyed::lemma_key_index(map.items@, all[j].peer_id.0@);
                assert(map.items@[j].0@ == all[j].peer_id.0@);
                assert(map.has(all[j].peer_id.0@));
            }
        }
        Ok(PeerOverlayAdmittedSet { current_epoch, admitted: map, revoked })
    }

    /// Why a frame ref is not acceptable now, if it is not.
    pub open spec fn ref_fault(&self, peer: PeerOverlayPeerRef) -> Option<Seq<char>> {
        if peer.shape_fault() is Some {
            peer.shape_fault()
        } else if peer.epoch != self.epoch() {
            Some("peer overlay frame ref uses a stale or future epoch"@)
        } else if self.revoked_ids().contains(peer.peer_id.0@) {
            Some("peer overlay frame ref names a revoked peer"@)
        } else if !self.admitted_refs().contains_key(peer.peer_id.0@) {
            Some("peer overlay frame ref is not admitted in the current epoch"@)
        } else if !same_ref(self.admitted_refs()[peer.peer_id.0@], peer) {
            Some("peer overlay frame ref does not match admitted member/device binding"@)
        } else {
            None
        }
    }

    /// Validate one frame ref against current admitted/revoked state.
    pub fn validate_ref(&self, peer: &PeerOverlayPeerRef) -> (r: Result<(), TransportError>)
        requires
            self.wf(),
        ensures
            outcome(r, self.ref_fault(*peer)),
    {
        match peer.validate_shape() {
            Err(e) => return Err(e),
            Ok(()) => {},
        }
        if peer.epoch != self.current_epoch {
            return Err(overlay_policy_error("peer overlay frame ref uses a stale or future epoch"));
        }
        if contains_id(&self.revoked, peer.peer_id.0.as_str()) {
            return Err(overlay_policy_error("peer overlay frame ref names a revoked peer"));
        }
        match self.admitted.get(peer.peer_id.0.as_str()) {
            Some(admitted) => {
                if same_ref_exec(admitted, peer) {
                    Ok(())
                } else {
                    Err(overlay_policy_error("peer overlay frame ref does not match admitted member/device binding"))
                }
            },
            None => Err(overlay_policy_error("peer overlay frame ref is not admitted in the current epoch")),
        }
    }
}

/// Hop/time bound for a peer overlay frame.
#[derive(Clone, Copy, Debug, PartialEq, Eq, Structural)]
pub struct PeerOverlayTtl {
    /// Remaining relay hops. Must be 1..=3 for overlay relay frames.
    pub remaining_hops: u8,
    /// Sender/runtime wall-clock creation timestamp in milliseconds.
    pub created_at_ms: u64,
    /// Sender/runtime wall-clock expiry timestamp in milliseconds.
    pub expires_at_ms: u64,
}

impl PeerOverlayTtl {
    pub open spec fn fault(&self) -> Option<Seq<char>> {
        if self.remaining_hops == 0 || self.remaining_hops > PEER_OVERLAY_MAX_RELAY_HOPS {
            Some("peer overlay remaining hops must be within the relay hop cap"@)
        } else if self.expires_at_ms <= self.created_at_ms {
            Some("peer overlay expiry must be after creation time"@)
        } else {
            None
        }
    }

    /// Validate hop and wall-clock expiry bounds.
    pub fn validate(&self) -> (r: Result<(), TransportError>)
        ensures
            outcome(r, self.fault()),
    {
        if self.remaining_hops == 0 || self.remaining_hops > PEER_OVERLAY_MAX_RELAY_HOPS {
            return Err(overlay_policy_error("peer overlay remaining hops must be within the relay hop cap"));
        }
        if self.expires_at_ms <= self.created_at_ms {
            return Err(overlay_policy_error("peer overlay expiry must be after creation time"));
        }
        Ok(())
    }
}

/// Peer overlay route refs and loop controls.
#[derive(Debug, PartialEq, Eq)]
pub struct PeerOverlayRoute {
    /// Current-epoch admitted source peer.
    pub source: PeerOverlayPeerRef,
    /// Ordered content-blind relay peers.
    pub relay_path: Vec<PeerOverlayPeerRef>,
    /// Current-epoch admitted destination peer.
    pub destination: PeerOverlayPeerRef,
    /// Hop/time bound for this frame.
    pub ttl: PeerOverlayTtl,
    /// Opaque loop id for duplicate/loop suppression.
    pub loop_id: PeerOverlayLoopId,
}

/// First fault of the relays from position `i` on: ref validity, being the
/// source or destination, or repeating an earlier relay.
pub open spec fn relays_fault(
    admitted: PeerOverlayAdmittedSet,
    path: Seq<PeerOverlayPeerRef>,
    source: Seq<char>,
    destination: Seq<char>,
    i: int,
) -> Option<Seq<char>>
    decreases path.len() - i,
{
    if i < 0 || i >= path.len() {
        None
    } else if admitted.ref_fault(path[i]) is Some {
        admitted.ref_fault(path[i])
    } else if path[i].peer_id.0@ == source || path[i].peer_id.0@ == destination {
        Some("peer overlay relay cannot be source or destination"@)
    } else if exists|j: int| 0 <= j < i && (#[trigger] path[j]).peer_id.0@ == path[i].peer_id.0@ {
        Some("peer overlay relay path must not repeat a peer"@)
    } else {
        relays_fault(admitted, path, source, destination, i + 1)
    }
}

impl PeerOverlayRoute {
    pub open spec fn fault(&self, admitted: PeerOverlayAdmittedSet) -> Option<Seq<char>> {
        if admitted.ref_fault(self.source) is Some {
            admitted.ref_fault(self.source)
        } else if admitted.ref_fault(self.destination) is Some {
            admitted.ref_fault(self.destination)
        } else if self.source.peer_id.0@ == self.destination.peer_id.0@ {
            Some("peer overlay source and destination must differ"@)
        } else if self.ttl.fault() is Some {
            self.ttl.fault()
        } else if all_zero(self.loop_id.0@) {
            Some("peer overlay loop id must not be all zero"@)
        } else if self.relay_path@.len() == 0 {
            Some("peer overlay route requires at least one relay peer"@)
        } else if self.relay_path@.len() > PEER_OVERLAY_MAX_RELAY_HOPS {
            Some("peer overlay relay path exceeds hop cap"@)
        } else {
            relays_fault(admitted, self.relay_path@, self.source.peer_id.0@, self.destination.peer_id.0@, 0)
        }
    }

    /// Validate route refs, TTL, and loop constraints.
    pub fn validate(&self, admitted: &PeerOverlayAdmittedSet) -> (r: Result<(), TransportError>)
        requires
            admitted.wf(),
        ensures
            outcome(r, self.fault(*admitted)),
    {
        match admitted.validate_ref(&self.source) {
            Err(e) => return Err(e),
            Ok(()) => {},
        }
        match admitted.validate_ref(&self.destination) {
            Err(e) => return Err(e),
            Ok(()) => {},
        }
        if str_equal(self.source.peer_id.0.as_str(), self.destination.peer_id.0.as_str()) {
            return Err(overlay_policy_error("peer overlay source and destination must differ"));
        }
        match self.ttl.validate() {
            Err(e) => return Err(e),
            Ok(()) => {},
        }
        match self.loop_id.validate() {
            Err(e) => return Err(e),
            Ok(()) => {},
        }
        if self.relay_path.len() == 0 {
            return Err(overlay_policy_error("peer overlay route requires at least one relay peer"));
        }
        if self.relay_path.len() > PEER_OVERLAY_MAX_RELAY_HOPS as usize {
            return Err(overlay_policy_error("peer overlay relay path exceeds hop cap"));
        }
        let src = self.source.peer_id.0.as_str();
        let dst = self.destination.peer_id.0.as_str();
        let path = &self.relay_path;
        let n = path.len();
        let mut seen: Vec<SignalingPeerId> = Vec::new();
        let mut i: usize = 0;
        while i < n
            invariant
                n == path@.len(),
                i <= n,
                admitted.wf(),
                path@ == self.relay_path@,
                src@ == self.source.peer_id.0@,
                dst@ == self.destination.peer_id.0@,
                self.fault(*admitted) == relays_fault(*admitted, path@, src@, dst@, i as int),
                seen@.len() == i,
                forall|j: int| 0 <= j < i ==> (#[trigger] seen@[j]).0@ == path@[j].peer_id.0@,
            decreases n - i,
        {
            let relay = &path[i];
            match admitted.validate_ref(relay) {
                Err(e) => return Err(e),
                Ok(()) => {},
            }
            if str_equal(relay.peer_id.0.as_str(), src) || str_equal(relay.peer_id.0.as_str(), dst) {
                return Err(overlay_policy_error("peer overlay relay cannot be source or destination"));
            }
            if contains_id(&seen, relay.peer_id.0.as_str()) {
                proof {
                    let m = seen@.map_values(|p: SignalingPeerId| p.0@);
                    let j = choose|j: int| 0 <= j < m.len() && m[j] == relay.peer_id.0@;
                    assert(path@[j].peer_id.0@ == path@[i as int].peer_id.0@);
                }
                return Err(overlay_policy_error("peer overlay relay path must not repeat a peer"));
            }
            proof {
                assert(!(exists|j: int| 0 <= j < i && (#[trigger] path@[j]).peer_id.0@ == path@[i as int].peer_id.0@)) by {
                    if exists|j: int| 0 <= j < i && (#[trigger] path@[j]).peer_id.0@ == path@[i as int].peer_id.0@ {
                        let j = choose|j: int| 0 <= j < i && (#[trigger] path@[j]).peer_id.0@ == path@[i as int].peer_id.0@;
                        assert(seen@.map_values(|p: SignalingPeerId| p.0@)[j] == relay.peer_id.0@);
                    }
                }
            }
            seen.push(relay.peer_id.clone());
            i = i + 1;
        }
        Ok(())
    }
}

/// OpenMLS/backend auth binding for an opaque overlay frame.
#[derive(Debug, PartialEq, Eq)]
pub struct PeerOverlayAuth {
    /// Commitment to the OpenMLS group id.
    pub group_id_commitment: [u8; 32],
    /// OpenMLS epoch for the protected frame.
    pub epoch: u64,
    /// Source sender leaf index for receiver verification.
    pub sender_leaf_index: u32,
    /// Commitment to the current OpenMLS confirmation tag.
    pub confirmation_tag_commitment: [u8; 32],
    /// Authentication tag from the protected-envelope layer.
    pub frame_auth_tag: Vec<u8>,
}

impl PeerOverlayAuth {
    pub open spec fn fault(&self, epoch: u64) -> Option<Seq<char>> {
        if self.epoch != epoch {
            Some("peer overlay auth epoch must match current admitted epoch"@)
        } else if all_zero(self.group_id_commitment@) {
            Some("peer overlay group id commitment must not be all zero"@)
        } else if all_zero(self.confirmation_tag_commitment@) {
            Some("peer overlay confirmation commitment must not be all zero"@)
        } else if self.frame_auth_tag@.len() < 16 {
            Some("peer overlay frame auth tag must be at least 16 bytes"@)
        } else {
            None
        }
    }

    /// Validate that auth material is present and epoch-bound.
    pub fn validate(&self, admitted: &PeerOverlayAdmittedSet) -> (r: Result<(), TransportError>)
        ensures
            outcome(r, self.fault(admitted.epoch())),
    {
        if self.epoch != admitted.current_epoch {
            return Err(overlay_policy_error("peer overlay auth epoch must match current admitted epoch"));
        }
        if is_all_zero(&self.group_id_commitment) {
            return Err(overlay_policy_error("peer overlay group id commitment must not be all zero"));
        }
        if is_all_zero(&self.confirmation_tag_commitment) {
            return Err(overlay_policy_error("peer overlay confirmation commitment must not be all zero"));
        }
        if self.frame_auth_tag.len() < 16 {
            return Err(overlay_policy_error("peer overlay frame auth tag must be at least 16 bytes"));
        }
        Ok(())
    }
}

/// Relay-visible protected payload class.
#[derive(Clone, Copy, Debug, PartialEq, Eq, Structural)]
pub enum PeerOverlayPayloadKind {
    /// Protected group text/control envelope.
    TextControl,
    /// Protected voice/media envelope for a later media task.
    Media,
    /// Protected store-forward envelope for a later storage task.
    StoreForward,
}

pub open spec fn payload_label(k: PeerOverlayPayloadKind) -> Seq<char> {
    match k {
        PeerOverlayPayloadKind::TextControl => "text_control"@,
        PeerOverlayPayloadKind::Media => "media"@,
        PeerOverlayPayloadKind::StoreForward => "store_forward"@,
    }
}

/// Opaque protected payload carried by the overlay.
#[derive(Debug, PartialEq, Eq)]
pub struct PeerOverlayOpaquePayload {
    /// Payload class used for policy, not decryption.
    pub kind: PeerOverlayPayloadKind,
    /// Sender-produced content key id or media KID.
    pub key_id: Vec<u8>,
    /// Sender monotonic protected-envelope sequence.
    pub sequence: u64,
    /// Commitment to authenticated associated data.
    pub aad_commitment: [u8; 32],
    /// Ciphertext/authenticated bytes. Transport never decrypts this field.
    pub opaque_ciphertext: Vec<u8>,
}

impl PeerOverlayOpaquePayload {
    pub open spec fn fault(&self) -> Option<Seq<char>> {
        if self.key_id@.len() == 0 {
            Some("peer overlay key id must not be empty"@)
        } else if all_zero(self.aad_commitment@) {
            Some("peer overlay AAD commitment must not be all zero"@)
        } else if self.opaque_ciphertext@.len() == 0 {
            Some("peer overlay ciphertext must not be empty"@)
        } else {
            None
        }
    }

    /// Validate that the payload is complete but opaque.
    pub fn validate(&self) -> (r: Result<(), TransportError>)
        ensures
            outcome(r, self.fault()),
    {
        if self.key_id.len() == 0 {
            return Err(overlay_policy_error("peer overlay key id must not be empty"));
        }
        if is_all_zero(&self.aad_commitment) {
            return Err(overlay_policy_error("peer overlay AAD commitment must not be all zero"));
        }
        if self.opaque_ciphertext.len() == 0 {
            return Err(overlay_policy_error("peer overlay ciphertext must not be empty"));
        }
        Ok(())
    }

    /// Relay-visible image: metadata commitments and ciphertext only.
    pub open spec fn visible(&self) -> Seq<u8> {
        encode_utf8(payload_label(self.kind)) + be64(self.key_id@.len() as u64) + self.key_id@ + be64(
            self.sequence,
        ) + self.aad_commitment@ + self.opaque_ciphertext@
    }

    /// Relay-visible bytes for audits; this exposes metadata commitments and ciphertext only.
    pub fn relay_visible_bytes(&self) -> (r: Vec<u8>)
        ensures
            r@ == self.visible(),
    {
        let mut bytes: Vec<u8> = Vec::new();
        match self.kind {
            PeerOverlayPayloadKind::TextControl => push_str_bytes(&mut bytes, "text_control"),
            PeerOverlayPayloadKind::Media => push_str_bytes(&mut bytes, "media"),
            PeerOverlayPayloadKind::StoreForward => push_str_bytes(&mut bytes, "store_forward"),
        }
        push_be64(&mut bytes, self.key_id.len() as u64);
        push_bytes(&mut bytes, self.key_id.as_slice());
        push_be64(&mut bytes, self.sequence);
        push_bytes(&mut bytes, &self.aad_commitment);
        push_bytes(&mut bytes, self.opaque_ciphertext.as_slice());
        assert(bytes@ =~= self.visible());
        bytes
    }
}

/// Destination acknowledgement mode.
#[derive(Clone, Copy, Debug, PartialEq, Eq, Structural)]
pub enum PeerOverlayAckMode {
    /// Destination must authenticate and return a receipt/ack.
    AckRequired,
    /// No destination ack required; not suitable for protected group text delivery.
    BestEffort,
}

/// Redelivery policy bounds for a frame.
#[derive(Clone, Copy, Debug, PartialEq, Eq, Structural)]
pub struct PeerOverlayRedelivery {
    /// Maximum delivery attempts for this ack id.
    pub max_attempts: u8,
    /// Maximum relay peers to ask during redelivery.
    pub max_relay_fanout: u8,
    /// Redelivery deadline in sender/runtime milliseconds.
    pub deadline_ms: u64,
}

impl PeerOverlayRedelivery {
    pub open spec fn fault(&self, ttl: PeerOverlayTtl) -> Option<Seq<char>> {
        if self.max_attempts == 0 {
            Some("peer overlay redelivery attempts must be non-zero"@)
        } else if self.max_relay_fanout == 0 || self.max_relay_fanout > PEER_OVERLAY_MAX_RELAY_HOPS {
            Some("peer overlay redelivery fanout must be within the relay hop cap"@)
        } else if self.deadline_ms > ttl.expires_at_ms {
            Some("peer overlay redelivery deadline must not exceed frame expiry"@)
        } else {
            None
        }
    }

    /// Validate retry/fanout bounds against the frame TTL.
    pub fn validate(&self, ttl: &PeerOverlayTtl) -> (r: Result<(), TransportError>)
        ensures
            outcome(r, self.fault(*ttl)),
    {
        if self.max_attempts == 0 {
            return Err(overlay_policy_error("peer overlay redelivery attempts must be non-zero"));
        }
        if self.max_relay_fanout == 0 || self.max_relay_fanout > PEER_OVERLAY_MAX_RELAY_HOPS {
            return Err(overlay_policy_error("peer overlay redelivery fanout must be within the relay hop cap"));
        }
        if self.deadline_ms > ttl.expires_at_ms {
            return Err(overlay_policy_error("peer overlay redelivery deadline must not exceed frame expiry"));
        }
        Ok(())
    }
}

/// Ack/redelivery contract for one overlay frame.
#[derive(Clone, Copy, Debug, PartialEq, Eq)]
pub struct PeerOverlayDelivery {
    /// Opaque ack id for receiver receipt and redelivery correlation.
    pub ack_id: PeerOverlayAckId,
    /// Whether destination authentication must produce an ack.
    pub ack_mode: PeerOverlayAckMode,
    /// Bounded redelivery behavior.
    pub redelivery: PeerOverlayRedelivery,
}

impl PeerOverlayDelivery {
    pub open spec fn fault(&self, ttl: PeerOverlayTtl) -> Option<Seq<char>> {
        if all_zero(self.ack_id.0@) {
            Some("peer overlay ack id must not be all zero"@)
        } else {
            self.redelivery.fault(ttl)
        }
    }

    /// Validate ack and redelivery bounds.
    pub fn validate(&self, ttl: &PeerOverlayTtl) -> (r: Result<(), TransportError>)
        ensures
            outcome(r, self.fault(*ttl)),
    {
        match self.ack_id.validate() {
            Err(e) => return Err(e),
            Ok(()) => {},
        }
        self.redelivery.validate(ttl)
    }
}

/// Carrier class for an overlay frame.
#[derive(Clone, Copy, Debug, PartialEq, Eq, Structural)]
pub enum PeerOverlayCarrier {
    /// Direct WebRTC DataChannel between admitted peers.
    DirectWebRtcDataChannel,
    /// Configured TURN-backed WebRTC between admitted peers.
    ConfiguredTurnBackedWebRtc,
    /// Peer-assisted overlay relay between admitted peers.
    PeerAssistedOverlay,
    /// Forbidden provider application relay fallback.
    ProviderApplicationRelay,
}

impl PeerOverlayCarrier {
    /// Validate that a carrier preserves provider-as-signaling-only boundaries.
    pub fn validate(self) -> (r: Result<(), TransportError>)
        ensures
            outcome(r, if self is ProviderApplicationRelay {
                Some("peer overlay frames must not use providers as application relays"@)
            } else {
                None
            }),
    {
        if self == PeerOverlayCarrier::ProviderApplicationRelay {
            Err(overlay_policy_error("peer overlay frames must not use providers as application relays"))
        } else {
            Ok(())
        }
    }
}

/// Versioned peer overlay frame.
#[derive(Debug, PartialEq, Eq)]
pub struct PeerOverlayFrame {
    /// Frame schema version.
    pub schema_version: u16,
    /// Carrier boundary for this frame.
    pub carrier: PeerOverlayCarrier,
    /// Current-epoch route refs and loop controls.
    pub route: PeerOverlayRoute,
    /// OpenMLS/backend auth binding.
    pub auth: PeerOverlayAuth,
    /// Ack and redelivery contract.
    pub delivery: PeerOverlayDelivery,
    /// Opaque protected payload.
    pub payload: PeerOverlayOpaquePayload,
}

impl PeerOverlayFrame {
    /// First rule the frame breaks against `admitted`, in checking order.
    pub open spec fn fault(&self, admitted: PeerOverlayAdmittedSet) -> Option<Seq<char>> {
        if self.schema_version != PEER_OVERLAY_FRAME_SCHEMA_VERSION {
            Some("unsupported peer overlay frame schema version"@)
        } else if self.carrier is ProviderApplicationRelay {
            Some("peer overlay frames must not use providers as application relays"@)
        } else if self.route.fault(admitted) is Some {
            self.route.fault(admitted)
        } else if self.auth.fault(admitted.epoch()) is Some {
            self.auth.fault(admitted.epoch())
        } else if self.auth.epoch != self.route.source.epoch || self.auth.epoch != self.route.destination.epoch {
            Some("peer overlay auth epoch must match route refs"@)
        } else if self.delivery.fault(self.route.ttl) is Some {
            self.delivery.fault(self.route.ttl)
        } else {
            self.payload.fault()
        }
    }

    /// Build a schema-v1 frame from already protected material.
    pub fn new(
        carrier: PeerOverlayCarrier,
        route: PeerOverlayRoute,
        auth: PeerOverlayAuth,
        delivery: PeerOverlayDelivery,
        payload: PeerOverlayOpaquePayload,
    ) -> (r: Self)
        ensures
            r == (PeerOverlayFrame {
                schema_version: PEER_OVERLAY_FRAME_SCHEMA_VERSION,
                carrier,
                route,
                auth,
                delivery,
                payload,
            }),
    {
        PeerOverlayFrame {
            schema_version: PEER_OVERLAY_FRAME_SCHEMA_VERSION,
            carrier,
            route,
            auth,
            delivery,
            payload,
        }
    }

    /// Validate the protocol frame without decrypting or forwarding it.
    pub fn validate(&self, admitted: &PeerOverlayAdmittedSet) -> (r: Result<(), TransportError>)
        requires
            admitted.wf(),
        ensures
            outcome(r, self.fault(*admitted)),
    {
        if self.schema_version != PEER_OVERLAY_FRAME_SCHEMA_VERSION {
            return Err(overlay_policy_error("unsupported peer overlay frame schema version"));
        }
        match self.carrier.validate() {
            Err(e) => return Err(e),
            Ok(()) => {},
        }
        match self.route.validate(admitted) {
            Err(e) => return Err(e),
            Ok(()) => {},
        }
        match self.auth.validate(admitted) {
            Err(e) => return Err(e),
            Ok(()) => {},
        }
        if self.auth.epoch != self.route.source.epoch || self.auth.epoch != self.route.destination.epoch {
            return Err(overlay_policy_error("peer overlay auth epoch must match route refs"));
        }
        match self.delivery.validate(&self.route.ttl) {
            Err(e) => return Err(e),
            Ok(()) => {},
        }
        self.payload.validate()
    }
}

/// A frame the validator accepts only names current-epoch, admitted,
/// unrevoked peers, with distinct relays that are neither endpoint.
pub proof fn law_valid_frame_routes_admitted_peers(frame: PeerOverlayFrame, admitted: PeerOverlayAdmittedSet)
    requires
        frame.fault(admitted) is None,
    ensures
        admitted.ref_fault(frame.route.source) is None,
        admitted.ref_fault(frame.route.destination) is None,
        frame.route.source.epoch == admitted.epoch(),
        !admitted.revoked_ids().contains(frame.route.source.peer_id.0@),
        1 <= frame.route.relay_path@.len() <= PEER_OVERLAY_MAX_RELAY_HOPS,
        forall|i: int| 0 <= i < frame.route.relay_path@.len() ==> admitted.ref_fault(#[trigger] frame.route.relay_path@[i]) is None,
        forall|i: int, j: int| 0 <= i < j < frame.route.relay_path@.len() ==> (#[trigger] frame.route.relay_path@[i]).peer_id.0@
            != (#[trigger] frame.route.relay_path@[j]).peer_id.0@,
        !(frame.carrier is ProviderApplicationRelay),
{
    let r = frame.route;
    lemma_relays_ok(admitted, r.relay_path@, r.source.peer_id.0@, r.destination.peer_id.0@, 0);
}

proof fn lemma_relays_ok(
    admitted: PeerOverlayAdmittedSet,
    path: Seq<PeerOverlayPeerRef>,
    source: Seq<char>,
    destination: Seq<char>,
    k: int,
)
    requires
        0 <= k <= path.len(),
        relays_fault(admitted, path, source, destination, k) is None,
    ensures
        forall|i: int| k <= i < path.len() ==> admitted.ref_fault(#[trigger] path[i]) is None,
        forall|i: int, j: int| 0 <= i < j < path.len() && k <= j ==> (#[trigger] path[i]).peer_id.0@
            != (#[trigger] path[j]).peer_id.0@,
    decreases path.len() - k,
{
    if k < path.len() {
        lemma_relays_ok(admitted, path, source, destination, k + 1);
        assert forall|i: int, j: int| 0 <= i < j < path.len() && k <= j implies (#[trigger] path[i]).peer_id.0@
            != (#[trigger] path[j]).peer_id.0@ by {
            if j == k {
                if path[i].peer_id.0@ == path[j].peer_id.0@ {
                    assert(exists|jj: int| 0 <= jj < k && (#[trigger] path[jj]).peer_id.0@ == path[k].peer_id.0@);
                }
            }
        }
    }
}

} // verus!
