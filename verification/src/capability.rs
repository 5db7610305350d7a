//! Content-blind peer capability advertisements for relay selection.
//!
//! Advertisements carry only routing health/capacity metadata: relay capacity,
//! battery/doze posture, observed RTT, packet loss, and freeload accounting.
use vstd::prelude::*;
use vstd::string::*;
use vstd::utf8::*;
use crate::digest::{sha256, sha256_of, be64, be32, be16, push_be64, push_be32, push_be16, push_str_bytes};
use crate::keyed::KeyedList;
use crate::manager::RelayRuntimeObservation;
use crate::text::{all_ws, only_ws, text};

verus! {

/// Local battery/doze posture advertised for relay ranking.
#[derive(Clone, Copy, Debug, PartialEq, Eq, Structural)]
pub enum BatteryDozePosture {
    /// Device is charging or externally powered.
    Charging,
    /// Device is on battery but not constrained.
    BatteryNormal,
    /// Device has entered an OS battery-saver posture.
    BatterySaver,
    /// Device is in doze/background constrained mode.
    Dozing,
    /// Caller cannot classify the current posture.
    Unknown,
}

impl BatteryDozePosture {
    /// Ranking cost of a posture in basis points.
    pub open spec fn cost(self) -> u16 {
        match self {
            BatteryDozePosture::Charging => 0,
            BatteryDozePosture::BatteryNormal => 250,
            BatteryDozePosture::Unknown => 1_000,
            BatteryDozePosture::BatterySaver => 2_500,
            BatteryDozePosture::Dozing => 7_500,
        }
    }

    /// Convert posture into a ranking cost in basis points.
    pub fn cost_bps(self) -> (r: u16)
        ensures
            r == self.cost(),
    {
        match self {
            BatteryDozePosture::Charging => 0,
            BatteryDozePosture::BatteryNormal => 250,
            BatteryDozePosture::Unknown => 1_000,
            BatteryDozePosture::BatterySaver => 2_500,
            BatteryDozePosture::Dozing => 7_500,
        }
    }
}

/// Relay capacity advertised by a peer.
#[derive(Clone, Copy, Debug, PartialEq, Eq, Structural)]
pub struct RelayCapacityAdvertisement {
    /// Maximum relay fanout the peer is willing to serve now.
    pub max_fanout: u16,
    /// Current relay egress budget in bytes per second.
    pub egress_bytes_per_second: u64,
    /// Whether this peer accepts opportunistic store-forward envelopes.
    pub accepts_store_forward: bool,
}

/// One transport-authenticated capability advertisement payload.
#[derive(Debug, PartialEq, Eq)]
pub struct RelayCapabilityAdvertisement {
    /// Stable authenticated peer id.
    pub peer_id: String,
    /// Monotonic sender sequence used to reject stale advertisements.
    pub sequence: u64,
    /// Sender timestamp in milliseconds.
    pub issued_at_ms: u64,
    /// Expiry timestamp in milliseconds; stale advertisements are ignored.
    pub expires_at_ms: u64,
    /// Current relay capacity posture.
    pub relay_capacity: RelayCapacityAdvertisement,
    /// Current battery/doze posture.
    pub battery_doze: BatteryDozePosture,
    /// Observed RTT from the local peer to this relay candidate.
    pub observed_rtt_ms: u32,
    /// Packet loss over the advertisement window in basis points.
    pub packet_loss_bps: u16,
    /// Relay bytes this peer contributed in the current accounting window.
    pub contributed_bytes: u64,
    /// Relay bytes this peer consumed in the current accounting window.
    pub consumed_bytes: u64,
}

impl Clone for RelayCapabilityAdvertisement {
    fn clone(&self) -> (r: Self)
        ensures
            r == *self,
    {
        RelayCapabilityAdvertisement {
            peer_id: self.peer_id.clone(),
            sequence: self.sequence,
            issued_at_ms: self.issued_at_ms,
            expires_at_ms: self.expires_at_ms,
            relay_capacity: self.relay_capacity,
            battery_doze: self.battery_doze,
            observed_rtt_ms: self.observed_rtt_ms,
            packet_loss_bps: self.packet_loss_bps,
            contributed_bytes: self.contributed_bytes,
            consumed_bytes: self.consumed_bytes,
        }
    }
}

/// Errors returned by capability advertisement validation/storage.
#[derive(Debug, PartialEq, Eq)]
pub enum CapabilityAdvertisementError {
    /// Advertisement failed structural validation.
    Invalid(String),
    /// Advertisement has expired.
    Expired,
    /// Advertisement sequence does not advance the latest known peer state.
    Stale {
        /// Peer whose advertisement was stale.
        peer_id: String,
        /// Rejected sequence.
        sequence: u64,
        /// Latest accepted sequence.
        latest: u64,
    },
}

/// Which validation rule an advertisement breaks first, if any.
pub enum AdFault {
    MissingPeer,
    ZeroSequence,
    Expired,
    NoCapacity,
    LossOutOfRange,
}

impl RelayCapabilityAdvertisement {
    /// Maximum basis-points value.
    pub const MAX_BPS: u16 = 10_000;

    /// The first rule broken at `now_ms`, in checking order.
    pub open spec fn fault_at(&self, now_ms: u64) -> Option<AdFault> {
        if all_ws(self.peer_id@) {
            Some(AdFault::MissingPeer)
        } else if self.sequence == 0 {
            Some(AdFault::ZeroSequence)
        } else if self.expires_at_ms <= now_ms || self.expires_at_ms <= self.issued_at_ms {
            Some(AdFault::Expired)
        } else if self.relay_capacity.max_fanout == 0 || self.relay_capacity.egress_bytes_per_second
            == 0 {
            Some(AdFault::NoCapacity)
        } else if self.packet_loss_bps > RelayCapabilityAdvertisement::MAX_BPS {
            Some(AdFault::LossOutOfRange)
        } else {
            None
        }
    }

    /// The error reported for a fault.
    pub open spec fn fault_matches(f: AdFault, e: CapabilityAdvertisementError) -> bool {
        match f {
            AdFault::MissingPeer => e matches CapabilityAdvertisementError::Invalid(m) && m@
                == "peer id is required"@,
            AdFault::ZeroSequence => e matches CapabilityAdvertisementError::Invalid(m) && m@
                == "sequence must be non-zero"@,
            AdFault::Expired => e is Expired,
            AdFault::NoCapacity => e matches CapabilityAdvertisementError::Invalid(m) && m@
                == "relay capacity must include positive fanout and egress budget"@,
            AdFault::LossOutOfRange => e matches CapabilityAdvertisementError::Invalid(m) && m@
                == "packet loss must be basis points"@,
        }
    }

    /// Validate freshness and non-placeholder routing metrics.
    pub fn validate_at(&self, now_ms: u64) -> (r: Result<(), CapabilityAdvertisementError>)
        ensures
            r is Ok <==> self.fault_at(now_ms) is None,
            r matches Err(e) ==> Self::fault_matches(self.fault_at(now_ms)->0, e),
    {
        if only_ws(self.peer_id.as_str()) {
            return Err(CapabilityAdvertisementError::Invalid(text("peer id is required")));
        }
        if self.sequence == 0 {
            return Err(CapabilityAdvertisementError::Invalid(text("sequence must be non-zero")));
        }
        if self.expires_at_ms <= now_ms || self.expires_at_ms <= self.issued_at_ms {
            return Err(CapabilityAdvertisementError::Expired);
        }
        if self.relay_capacity.max_fanout == 0 || self.relay_capacity.egress_bytes_per_second == 0 {
            return Err(
                CapabilityAdvertisementError::Invalid(
                    text("relay capacity must include positive fanout and egress budget"),
                ),
            );
        }
        if self.packet_loss_bps > RelayCapabilityAdvertisement::MAX_BPS {
            return Err(
                CapabilityAdvertisementError::Invalid(text("packet loss must be basis points")),
            );
        }
        Ok(())
    }

    /// Contribution deficit in basis points of consumption; higher is worse.
    pub open spec fn freeload_score(&self) -> u16 {
        if self.consumed_bytes == 0 || self.contributed_bytes >= self.consumed_bytes {
            0
        } else {
            (((self.consumed_bytes - self.contributed_bytes) * 10_000) / (
            self.consumed_bytes as int)) as u16
        }
    }

    /// Contribution deficit score in basis points. Higher is worse.
    pub fn freeload_score_bps(&self) -> (r: u16)
        ensures
            r == self.freeload_score(),
            r <= RelayCapabilityAdvertisement::MAX_BPS,
    {
        if self.consumed_bytes == 0 {
            return 0;
        }
        if self.contributed_bytes >= self.consumed_bytes {
            return 0;
        }
        let deficit: u128 = (self.consumed_bytes - self.contributed_bytes) as u128;
        let consumed: u128 = self.consumed_bytes as u128;
        assert(deficit * 10_000 <= consumed * 10_000) by (nonlinear_arith)
            requires
                deficit <= consumed,
        ;
        assert((deficit * 10_000) / (consumed as int) <= 10_000) by (nonlinear_arith)
            requires
                deficit * 10_000 <= consumed * 10_000,
                consumed > 0,
        ;
        let scaled: u128 = deficit * 10_000;
        let score: u128 = scaled / consumed;
        score as u16
    }

    /// Bytes hashed into the canonical advertisement digest.
    pub open spec fn digest_input(&self) -> Seq<u8> {
        encode_utf8(self.peer_id@) + be64(self.sequence) + be64(self.issued_at_ms) + be64(
            self.expires_at_ms,
        ) + be16(self.relay_capacity.max_fanout) + be64(
            self.relay_capacity.egress_bytes_per_second,
        ) + seq![if self.relay_capacity.accepts_store_forward { 1u8 } else { 0u8 }] + be16(
            self.battery_doze.cost(),
        ) + be32(self.observed_rtt_ms) + be16(self.packet_loss_bps) + be16(
            self.freeload_score(),
        )
    }

    /// Canonical content-blind digest used for logs and replay diagnostics.
    pub fn digest(&self) -> (r: [u8; 32])
        ensures
            r@ == sha256_of(self.digest_input()),
    {
        let mut buf: Vec<u8> = Vec::new();
        push_str_bytes(&mut buf, self.peer_id.as_str());
        push_be64(&mut buf, self.sequence);
        push_be64(&mut buf, self.issued_at_ms);
        push_be64(&mut buf, self.expires_at_ms);
        push_be16(&mut buf, self.relay_capacity.max_fanout);
        push_be64(&mut buf, self.relay_capacity.egress_bytes_per_second);
        buf.push(if self.relay_capacity.accepts_store_forward { 1u8 } else { 0u8 });
        push_be16(&mut buf, self.battery_doze.cost_bps());
        push_be32(&mut buf, self.observed_rtt_ms);
        push_be16(&mut buf, self.packet_loss_bps);
        push_be16(&mut buf, self.freeload_score_bps());
        assert(buf@ =~= self.digest_input());
        sha256(buf.as_slice())
    }

    /// The runtime observation an advertisement stands for.
    pub open spec fn observation(&self) -> RelayRuntimeObservation {
        RelayRuntimeObservation {
            peer_id: self.peer_id,
            latency_ms: if self.observed_rtt_ms < 1 { 1 } else { self.observed_rtt_ms },
            successful_probes: (if self.packet_loss_bps >= RelayCapabilityAdvertisement::MAX_BPS {
                0
            } else {
                RelayCapabilityAdvertisement::MAX_BPS - self.packet_loss_bps
            }) as u32,
            failed_probes: self.packet_loss_bps as u32,
            battery_cost_bps: self.battery_doze.cost(),
            contributed_bytes: self.contributed_bytes,
            consumed_bytes: self.consumed_bytes,
        }
    }

    /// Convert this advertisement into the runtime observation used by the overlay manager.
    pub fn to_runtime_observation(&self) -> (r: RelayRuntimeObservation)
        ensures
            r == self.observation(),
    {
        let successful: u16 = if self.packet_loss_bps >= RelayCapabilityAdvertisement::MAX_BPS {
            0
        } else {
            RelayCapabilityAdvertisement::MAX_BPS - self.packet_loss_bps
        };
        RelayRuntimeObservation {
            peer_id: self.peer_id.clone(),
            latency_ms: if self.observed_rtt_ms < 1 { 1 } else { self.observed_rtt_ms },
            successful_probes: successful as u32,
            failed_probes: self.packet_loss_bps as u32,
            battery_cost_bps: self.battery_doze.cost_bps(),
            contributed_bytes: self.contributed_bytes,
            consumed_bytes: self.consumed_bytes,
        }
    }
}

/// Latest accepted capability advertisements keyed by peer id.
#[derive(Debug)]
pub struct CapabilityAdvertisementBook {
    pub(crate) latest: KeyedList<RelayCapabilityAdvertisement>,
}

impl CapabilityAdvertisementBook {
    /// Every entry is filed under its own peer id.
    pub closed spec fn wf(&self) -> bool {
        &&& self.latest.wf()
        &&& forall|i: int|
            0 <= i < self.latest.items@.len() ==> (#[trigger] self.latest.items@[i]).0@
                == self.latest.items@[i].1.peer_id@
    }

    /// Latest advertisement per peer id.
    pub closed spec fn view(&self) -> Map<Seq<char>, RelayCapabilityAdvertisement> {
        self.latest.view_map()
    }

    /// An empty book.
    pub fn new() -> (r: Self)
        ensures
            r.wf(),
            r.view() == Map::<Seq<char>, RelayCapabilityAdvertisement>::empty(),
    {
        let r = CapabilityAdvertisementBook { latest: KeyedList::new() };
        assert(r.view() =~= Map::<Seq<char>, RelayCapabilityAdvertisement>::empty());
        r
    }

    /// Accept a fresh advertisement and reject expired/stale updates.
    pub fn accept(&mut self, advertisement: RelayCapabilityAdvertisement, now_ms: u64) -> (r:
        Result<(), CapabilityAdvertisementError>)
        requires
            old(self).wf(),
        ensures
            final(self).wf(),
            r is Err ==> *final(self) == *old(self),
            advertisement.fault_at(now_ms) is Some ==> (r matches Err(e)
                && RelayCapabilityAdvertisement::fault_matches(
                advertisement.fault_at(now_ms)->0,
                e,
            )) && final(self).view() == old(self).view(),
            advertisement.fault_at(now_ms) is None && old(self).view().contains_key(
                advertisement.peer_id@,
            ) && advertisement.sequence <= old(self).view()[advertisement.peer_id@].sequence
                ==> r == Err::<(), CapabilityAdvertisementError>(
                CapabilityAdvertisementError::Stale {
                    peer_id: advertisement.peer_id,
                    sequence: advertisement.sequence,
                    latest: old(self).view()[advertisement.peer_id@].sequence,
                },
            ) && final(self).view() == old(self).view(),
            advertisement.fault_at(now_ms) is None && !(old(self).view().contains_key(
                advertisement.peer_id@,
            ) && advertisement.sequence <= old(self).view()[advertisement.peer_id@].sequence)
                ==> r is Ok && final(self).view() == old(self).view().insert(
                advertisement.peer_id@,
                advertisement,
            ),
    {
        match advertisement.validate_at(now_ms) {
            Err(e) => return Err(e),
            Ok(()) => {},
        }
        let latest_seq: Option<u64> = match self.latest.get(advertisement.peer_id.as_str()) {
            Some(latest) => Some(latest.sequence),
            None => None,
        };
        if let Some(latest) = latest_seq {
            if advertisement.sequence <= latest {
                return Err(
                    CapabilityAdvertisementError::Stale {
                        peer_id: advertisement.peer_id,
                        sequence: advertisement.sequence,
                        latest,
                    },
                );
            }
        }
        let key = advertisement.peer_id.clone();
        let ghost before = self.latest;
        self.latest.upsert(key, advertisement);
        proof {
            assert forall|i: int| 0 <= i < self.latest.items@.len() implies (
            #[trigger] self.latest.items@[i]).0@ == self.latest.items@[i].1.peer_id@ by {
                let k = self.latest.items@[i].0@;
                crate::keyed::lemma_key_index(self.latest.items@, k);
                assert(self.latest.has(k));
                assert(self.latest.view_map().contains_key(k));
                assert(self.latest.view_map()[k] == self.latest.at(k));
                assert(self.latest.at(k) == self.latest.items@[i].1);
                if k == advertisement.peer_id@ {
                } else {
                    assert(before.view_map().insert(advertisement.peer_id@, advertisement).contains_key(k));
                    assert(before.view_map().contains_key(k));
                    assert(before.has(k));
                    crate::keyed::lemma_key_index(before.items@, k);
                    let j = crate::keyed::key_index(before.items@, k);
                    assert(before.items@[j].0@ == before.items@[j].1.peer_id@);
                    assert(before.view_map()[k] == before.at(k));
                }
            }
        }
        Ok(())
    }

    /// Return latest advertisement for a peer.
    pub fn get(&self, peer_id: &str) -> (r: Option<&RelayCapabilityAdvertisement>)
        requires
            self.wf(),
        ensures
            match r {
                Some(a) => self.view().contains_key(peer_id@) && *a == self.view()[peer_id@],
                None => !self.view().contains_key(peer_id@),
            },
    {
        self.latest.get(peer_id)
    }

    /// Number of latest advertisements retained.
    pub fn len(&self) -> (n: usize)
        requires
            self.wf(),
        ensures
            n == self.view().dom().len(),
    {
        proof {
            crate::keyed::lemma_view_map_len(&self.latest);
        }
        self.latest.len()
    }

    /// True when no advertisements are retained.
    pub fn is_empty(&self) -> (b: bool)
        requires
            self.wf(),
        ensures
            b == (self.view().dom().len() == 0),
    {
        self.len() == 0
    }
}

impl Default for CapabilityAdvertisementBook {
    fn default() -> (r: Self)
        ensures
            r.wf(),
            r.view() == Map::<Seq<char>, RelayCapabilityAdvertisement>::empty(),
    {
        Self::new()
    }
}

} // verus!
