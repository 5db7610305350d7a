//! Receiver replay rejection and redelivery bookkeeping.
use vstd::prelude::*;
use crate::keyed::{KeyedList, key_index, lemma_key_index};
use crate::text::{str_equal, peers_view, unique_strings, contains_string};

verus! {

/// Sequence identity for relay-carried packets.
#[derive(Debug, PartialEq, Eq)]
pub struct PacketId {
    /// Authenticated sender or media KID label.
    pub sender_id: String,
    /// Monotonic sender sequence.
    pub sequence: u64,
}

impl Clone for PacketId {
    fn clone(&self) -> (r: Self)
        ensures
            r == *self,
    {
        PacketId { sender_id: self.sender_id.clone(), sequence: self.sequence }
    }
}

/// Redelivery/replay errors.
#[derive(Clone, Copy, Debug, PartialEq, Eq, Structural)]
pub enum RedeliveryError {
    /// Packet sequence was already accepted or is too stale.
    Replay,
    /// Redelivery would exceed the configured fanout budget.
    FanoutExhausted,
}

/// Replay state of one sender.
#[derive(Debug)]
struct SenderReplayState {
    max_seen: u64,
    seen: Vec<u64>,
}

/// Peers asked to redeliver one packet.
#[derive(Debug)]
struct RedeliveryRequest {
    sender_id: String,
    sequence: u64,
    peers: Vec<String>,
}

/// Lowest sequence still inside a window of `window` ending at `max_seen`.
pub open spec fn window_floor(max_seen: u64, window: u64) -> int {
    let w: int = if window == 0 { 0 } else { window - 1 };
    if max_seen >= w { max_seen - w } else { 0 }
}

/// Would a sender state with this maximum and these retained sequences reject `s`.
pub open spec fn rejects(max_seen: u64, seen: Set<u64>, window: u64, s: u64) -> bool {
    s < window_floor(max_seen, window) || seen.contains(s)
}

spec fn req_matches(r: RedeliveryRequest, sender: Seq<char>, q: u64) -> bool {
    r.sender_id@ == sender && r.sequence == q
}

spec fn req_index(v: Seq<RedeliveryRequest>, sender: Seq<char>, q: u64) -> int
    decreases v.len(),
{
    if v.len() == 0 {
        -1
    } else if req_matches(v.last(), sender, q) {
        v.len() - 1
    } else {
        req_index(v.drop_last(), sender, q)
    }
}

spec fn reqs_unique(v: Seq<RedeliveryRequest>) -> bool {
    forall|i: int, j: int|
        0 <= i < v.len() && 0 <= j < v.len() && i != j ==> !req_matches(
            #[trigger] v[i],
            (#[trigger] v[j]).sender_id@,
            v[j].sequence,
        )
}

proof fn lemma_req_index(v: Seq<RedeliveryRequest>, sender: Seq<char>, q: u64)
    ensures
        -1 <= req_index(v, sender, q) < v.len(),
        req_index(v, sender, q) >= 0 ==> req_matches(v[req_index(v, sender, q)], sender, q),
        req_index(v, sender, q) == -1 <==> forall|i: int|
            0 <= i < v.len() ==> !req_matches(#[trigger] v[i], sender, q),
        reqs_unique(v) ==> forall|i: int|
            0 <= i < v.len() && req_matches(#[trigger] v[i], sender, q) ==> req_index(v, sender, q)
                == i,
    decreases v.len(),
{
    if v.len() > 0 {
        let t = v.drop_last();
        lemma_req_index(t, sender, q);
        if reqs_unique(v) {
            assert(reqs_unique(t)) by {
                assert forall|i: int, j: int|
                    0 <= i < t.len() && 0 <= j < t.len() && i != j implies !req_matches(
                    #[trigger] t[i],
                    (#[trigger] t[j]).sender_id@,
                    t[j].sequence,
                ) by {
                    assert(t[i] == v[i] && t[j] == v[j]);
                }
            }
            assert forall|i: int|
                0 <= i < v.len() && req_matches(#[trigger] v[i], sender, q) implies req_index(
                v,
                sender,
                q,
            ) == i by {
                if i < v.len() - 1 {
                    assert(t[i] == v[i]);
                    if req_matches(v.last(), sender, q) {
                        assert(!req_matches(v[i], v[v.len() - 1].sender_id@, v[v.len() - 1].sequence));
                    }
                }
            }
        }
        assert forall|i: int| 0 <= i < v.len() && req_index(v, sender, q) == -1 implies !req_matches(
            #[trigger] v[i],
            sender,
            q,
        ) by {
            if i < v.len() - 1 {
                assert(t[i] == v[i]);
            }
        }
        if req_index(v, sender, q) != -1 && req_index(v, sender, q) == req_index(t, sender, q) {
            assert(t[req_index(t, sender, q)] == v[req_index(t, sender, q)]);
        }
    }
}

proof fn lemma_peers_len(v: Seq<String>)
    requires
        unique_strings(v),
    ensures
        peers_view(v).len() == v.len(),
        peers_view(v).finite(),
{
    let m = v.map_values(|p: String| p@);
    assert(m.no_duplicates()) by {
        assert forall|i: int, j: int| 0 <= i < m.len() && 0 <= j < m.len() && i != j implies m[i]
            != m[j] by {
            assert(v[i]@ != v[j]@);
        }
    }
    m.unique_seq_to_set();
    vstd::seq_lib::seq_to_set_is_finite(m);
}

proof fn lemma_peers_push(v: Seq<String>, s: String)
    ensures
        peers_view(v.push(s)) == peers_view(v).insert(s@),
{
    assert(v.push(s).map_values(|p: String| p@) =~= v.map_values(|p: String| p@).push(s@));
    assert(v.map_values(|p: String| p@).push(s@) =~= v.map_values(|p: String| p@) + seq![s@]);
    Seq::lemma_to_set_insert_commutes(v.map_values(|p: String| p@), s@);
    assert(peers_view(v.push(s)) =~= peers_view(v).insert(s@));
}

fn contains_u64(v: &Vec<u64>, x: u64) -> (b: bool)
    ensures
        b == v@.to_set().contains(x),
{
    let n = v.len();
    let mut i: usize = 0;
    while i < n
        invariant
            n == v@.len(),
            i <= n,
            forall|j: int| 0 <= j < i ==> v@[j] != x,
        decreases n - i,
    {
        if v[i] == x {
            assert(v@.contains(x));
            return true;
        }
        i = i + 1;
    }
    false
}

/// The entries of `v` that are at least `floor`.
fn retain_at_least(v: &Vec<u64>, floor: u64) -> (r: Vec<u64>)
    ensures
        r@.to_set() == v@.to_set().filter(|q: u64| q >= floor),
        r@.len() <= v@.len(),
{
    let n = v.len();
    let mut out: Vec<u64> = Vec::new();
    let mut i: usize = 0;
    while i < n
        invariant
            n == v@.len(),
            i <= n,
            out@.len() <= i,
            out@.to_set() == v@.subrange(0, i as int).to_set().filter(|q: u64| q >= floor),
        decreases n - i,
    {
        let x = v[i];
        let ghost before = out@;
        if x >= floor {
            out.push(x);
        }
        proof {
            let pre = v@.subrange(0, i as int);
            assert(v@.subrange(0, i + 1) =~= pre.push(x));
            assert(pre.push(x) =~= pre + seq![x]);
            Seq::lemma_to_set_insert_commutes(pre, x);
            if x >= floor {
                assert(before.push(x) =~= before + seq![x]);
                Seq::lemma_to_set_insert_commutes(before, x);
            }
            assert(out@.to_set() =~= pre.push(x).to_set().filter(|q: u64| q >= floor));
        }
        i = i + 1;
    }
    assert(v@.subrange(0, n as int) =~= v@);
    out
}

proof fn lemma_rejection_persists(om: u64, oseen: Set<u64>, nm: u64, nseen: Set<u64>, w: u64, q: u64)
    requires
        om <= nm,
        forall|x: u64| oseen.contains(x) && x >= window_floor(nm, w) ==> nseen.contains(x),
        rejects(om, oseen, w, q),
    ensures
        rejects(nm, nseen, w, q),
{
}

/// Sliding replay window plus deterministic resend fanout accounting.
#[derive(Debug)]
pub struct RedeliveryTracker {
    window_size: u64,
    max_fanout: usize,
    accepted: KeyedList<SenderReplayState>,
    requested: Vec<RedeliveryRequest>,
}

impl RedeliveryTracker {
    pub closed spec fn wf(&self) -> bool {
        &&& self.window_size >= 1
        &&& self.max_fanout >= 1
        &&& self.accepted.wf()
        &&& reqs_unique(self.requested@)
        &&& forall|i: int|
            0 <= i < self.requested@.len() ==> unique_strings(
                (#[trigger] self.requested@[i]).peers@,
            ) && self.requested@[i].peers@.len() <= self.max_fanout
    }

    /// Normalized replay window length.
    pub closed spec fn window(&self) -> u64 {
        self.window_size
    }

    /// Normalized fanout budget.
    pub closed spec fn fanout_cap(&self) -> usize {
        self.max_fanout
    }

    /// Senders with replay state.
    pub closed spec fn knows(&self, sender: Seq<char>) -> bool {
        self.accepted.has(sender)
    }

    /// Highest accepted sequence of a known sender.
    pub closed spec fn max_seen(&self, sender: Seq<char>) -> u64 {
        self.accepted.at(sender).max_seen
    }

    /// Accepted sequences of a known sender still inside the window.
    pub closed spec fn seen(&self, sender: Seq<char>) -> Set<u64> {
        self.accepted.at(sender).seen@.to_set()
    }

    /// Peers asked to redeliver the packet `(sender, sequence)`.
    pub closed spec fn redelivery_peers(&self, sender: Seq<char>, sequence: u64) -> Set<Seq<char>> {
        let i = req_index(self.requested@, sender, sequence);
        if i >= 0 {
            peers_view(self.requested@[i].peers@)
        } else {
            Set::empty()
        }
    }

    /// Does the tracker reject `sequence` from `sender` now.
    pub open spec fn would_reject(&self, sender: Seq<char>, sequence: u64) -> bool {
        self.knows(sender) && rejects(
            self.max_seen(sender),
            self.seen(sender),
            self.window(),
            sequence,
        )
    }

    /// Replay state of every sender other than `sender` is the same in both trackers.
    pub open spec fn same_replay_state_except(&self, other: &Self, sender: Option<Seq<char>>) -> bool {
        forall|s: Seq<char>|
            sender != Some(s) ==> #[trigger] self.knows(s) == other.knows(s) && (other.knows(s)
                ==> self.max_seen(s) == other.max_seen(s) && self.seen(s) == other.seen(s))
    }

    /// Construct a tracker. Zero values are normalized to one.
    pub fn new(window_size: u64, max_fanout: usize) -> (r: Self)
        ensures
            r.wf(),
            r.window() == (if window_size == 0 { 1 } else { window_size }),
            r.fanout_cap() == (if max_fanout == 0 { 1 } else { max_fanout }),
            forall|s: Seq<char>| !r.knows(s),
            forall|s: Seq<char>, q: u64|
                #[trigger] r.redelivery_peers(s, q) == Set::<Seq<char>>::empty(),
    {
        let r = RedeliveryTracker {
            window_size: if window_size == 0 { 1 } else { window_size },
            max_fanout: if max_fanout == 0 { 1 } else { max_fanout },
            accepted: KeyedList::new(),
            requested: Vec::new(),
        };
        assert forall|s: Seq<char>| !r.knows(s) by {}
        r
    }

    /// Accept an inbound packet id exactly once inside the replay window.
    pub fn accept(&mut self, packet: &PacketId) -> (r: Result<(), RedeliveryError>)
        requires
            old(self).wf(),
        ensures
            final(self).wf(),
            final(self).window() == old(self).window(),
            final(self).fanout_cap() == old(self).fanout_cap(),
            forall|s: Seq<char>, q: u64|
                #[trigger] final(self).redelivery_peers(s, q) == old(self).redelivery_peers(s, q),
            r is Err <==> old(self).would_reject(packet.sender_id@, packet.sequence),
            r is Err ==> r == Err::<(), RedeliveryError>(RedeliveryError::Replay)
                && final(self).same_replay_state_except(&old(self), None),
            r is Ok ==> {
                let sender = packet.sender_id@;
                let m = if old(self).knows(sender) && old(self).max_seen(sender) > packet.sequence {
                    old(self).max_seen(sender)
                } else {
                    packet.sequence
                };
                let prev = if old(self).knows(sender) {
                    old(self).seen(sender)
                } else {
                    Set::<u64>::empty()
                };
                &&& final(self).knows(sender)
                &&& final(self).max_seen(sender) == m
                &&& final(self).seen(sender) == prev.filter(
                    |q: u64| q >= window_floor(m, old(self).window()),
                ).insert(packet.sequence)
                &&& final(self).same_replay_state_except(&old(self), Some(sender))
            },
            r is Ok ==> final(self).would_reject(packet.sender_id@, packet.sequence),
            forall|s: Seq<char>, q: u64|
                old(self).would_reject(s, q) ==> #[trigger] final(self).would_reject(s, q),
    {
        let window = self.window_size;
        let pos = self.accepted.position(packet.sender_id.as_str());
        let max_seen: u64;
        let present: bool;
        let kept: Vec<u64>;
        let new_max: u64;
        match pos {
            Some(i) => {
                let st = &self.accepted.items[i].1;
                max_seen = st.max_seen;
                present = contains_u64(&st.seen, packet.sequence);
                let floor: u64 = if max_seen >= window - 1 {
                    max_seen - (window - 1)
                } else {
                    0
                };
                if packet.sequence < floor || present {
                    return Err(RedeliveryError::Replay);
                }
                new_max = if packet.sequence > max_seen {
                    packet.sequence
                } else {
                    max_seen
                };
                let new_floor: u64 = if new_max >= window - 1 {
                    new_max - (window - 1)
                } else {
                    0
                };
                kept = retain_at_least(&st.seen, new_floor);
                proof {
                    assert(self.accepted.at(packet.sender_id@) == self.accepted.items@[i as int].1);
                    assert(new_floor == window_floor(new_max, window));
                }
            },
            None => {
                new_max = packet.sequence;
                kept = Vec::new();
                proof {
                    assert(kept@.to_set() =~= Set::<u64>::empty().filter(
                        |q: u64| q >= window_floor(new_max, window),
                    ));
                }
            },
        }
        let mut seen = kept;
        let ghost kept_view = seen@;
        seen.push(packet.sequence);
        proof {
            assert(kept_view.push(packet.sequence) =~= kept_view + seq![packet.sequence]);
            Seq::lemma_to_set_insert_commutes(kept_view, packet.sequence);
        }
        let state = SenderReplayState { max_seen: new_max, seen };
        let ghost before = self.accepted;
        self.accepted.upsert(packet.sender_id.clone(), state);
        proof {
            let sender = packet.sender_id@;
            assert(self.accepted.view_map().contains_key(sender));
            assert(self.accepted.view_map()[sender] == state);
            assert forall|s: Seq<char>| s != sender implies #[trigger] self.accepted.has(s)
                == before.has(s) && (before.has(s) ==> self.accepted.at(s) == before.at(s)) by {
                assert(self.accepted.view_map().contains_key(s) == before.view_map().contains_key(s));
                if before.has(s) {
                    assert(self.accepted.view_map()[s] == before.view_map()[s]);
                }
            }
            assert(final(self).same_replay_state_except(&old(self), Some(sender)));
            assert forall|s: Seq<char>, q: u64| old(self).would_reject(s, q) implies #[trigger] self.would_reject(s, q) by {
                if s == sender {
                    assert forall|x: u64| old(self).seen(s).contains(x) && x >= window_floor(new_max, window) implies self.seen(s).contains(x) by {
                        assert(kept_view.to_set().contains(x));
                        assert(kept_view.push(packet.sequence).to_set().contains(x));
                    }
                    assert(self.accepted.at(s) == state);
                    assert(self.knows(s));
                    assert(self.max_seen(s) == new_max);
                    assert(old(self).max_seen(s) <= new_max);
                    lemma_rejection_persists(old(self).max_seen(s), old(self).seen(s), new_max, self.seen(s), window, q);
                } else {
                    assert(before == old(self).accepted);
                    assert(self.accepted.has(s) == before.has(s));
                    assert(self.accepted.at(s) == before.at(s));
                }
            }
        }
        Ok(())
    }

    fn find_request(&self, packet: &PacketId) -> (r: Option<usize>)
        ensures
            match r {
                Some(i) => i < self.requested@.len() && req_matches(
                    self.requested@[i as int],
                    packet.sender_id@,
                    packet.sequence,
                ),
                None => forall|i: int|
                    0 <= i < self.requested@.len() ==> !req_matches(
                        #[trigger] self.requested@[i],
                        packet.sender_id@,
                        packet.sequence,
                    ),
            },
    {
        let n = self.requested.len();
        let mut i: usize = 0;
        while i < n
            invariant
                n == self.requested@.len(),
                i <= n,
                forall|j: int|
                    0 <= j < i ==> !req_matches(
                        #[trigger] self.requested@[j],
                        packet.sender_id@,
                        packet.sequence,
                    ),
            decreases n - i,
        {
            let entry = &self.requested[i];
            if entry.sequence == packet.sequence && str_equal(
                entry.sender_id.as_str(),
                packet.sender_id.as_str(),
            ) {
                return Some(i);
            }
            i = i + 1;
        }
        None
    }

    /// Register a peer asked to redeliver a packet, capped by fanout.
    pub fn request_redelivery(&mut self, packet: PacketId, relay_peer: &str) -> (r: Result<
        (),
        RedeliveryError,
    >)
        requires
            old(self).wf(),
        ensures
            final(self).wf(),
            final(self).window() == old(self).window(),
            final(self).fanout_cap() == old(self).fanout_cap(),
            final(self).same_replay_state_except(&old(self), None),
            ({
                let before = old(self).redelivery_peers(packet.sender_id@, packet.sequence);
                let ok = before.contains(relay_peer@) || before.len() < old(self).fanout_cap();
                &&& r is Ok <==> ok
                &&& r is Err ==> r == Err::<(), RedeliveryError>(RedeliveryError::FanoutExhausted)
                &&& r is Ok ==> final(self).redelivery_peers(packet.sender_id@, packet.sequence)
                    == before.insert(relay_peer@)
                &&& r is Err ==> final(self).redelivery_peers(packet.sender_id@, packet.sequence)
                    == before
            }),
            forall|s: Seq<char>, q: u64|
                !(s == packet.sender_id@ && q == packet.sequence) ==> #[trigger] final(self).redelivery_peers(s, q) == old(self).redelivery_peers(s, q),
    {
        let ghost sender = packet.sender_id@;
        let ghost seq = packet.sequence;
        proof {
            lemma_req_index(self.requested@, sender, seq);
        }
        match self.find_request(&packet) {
            Some(i) => {
                let ghost old_req = self.requested@;
                proof {
                    lemma_peers_len(self.requested@[i as int].peers@);
                }
                if contains_string(&self.requested[i].peers, relay_peer) {
                    proof {
                        assert(peers_view(old_req[i as int].peers@).insert(relay_peer@)
                            =~= peers_view(old_req[i as int].peers@));
                    }
                    return Ok(());
                }
                if self.requested[i].peers.len() >= self.max_fanout {
                    return Err(RedeliveryError::FanoutExhausted);
                }
                let mut peers = self.requested[i].peers.clone();
                let ghost old_peers = peers@;
                assert(old_peers =~= old_req[i as int].peers@);
                peers.push(String::from_str(relay_peer));
                let req = RedeliveryRequest {
                    sender_id: self.requested[i].sender_id.clone(),
                    sequence: self.requested[i].sequence,
                    peers,
                };
                self.requested.set(i, req);
                proof {
                    let v = self.requested@;
                    lemma_peers_push(old_peers, req.peers@[old_peers.len() as int]);
                    assert(req.peers@ == old_peers.push(req.peers@[old_peers.len() as int]));
                    assert(unique_strings(req.peers@)) by {
                        assert forall|a: int, b: int|
                            0 <= a < req.peers@.len() && 0 <= b < req.peers@.len() && a != b implies (
                            #[trigger] req.peers@[a])@ != (#[trigger] req.peers@[b])@ by {
                            if a < old_peers.len() && b < old_peers.len() {
                                assert(req.peers@[a] == old_peers[a]);
                                assert(req.peers@[b] == old_peers[b]);
                            } else if a < old_peers.len() {
                                assert(req.peers@[a] == old_peers[a]);
                                assert(old_peers.map_values(|p: String| p@)[a] == old_peers[a]@);
                            } else {
                                assert(req.peers@[b] == old_peers[b]);
                                assert(old_peers.map_values(|p: String| p@)[b] == old_peers[b]@);
                            }
                        }
                    }
                    assert(reqs_unique(v)) by {
                        assert forall|a: int, b: int|
                            0 <= a < v.len() && 0 <= b < v.len() && a != b implies !req_matches(
                            #[trigger] v[a],
                            (#[trigger] v[b]).sender_id@,
                            v[b].sequence,
                        ) by {
                            assert(old_req[a].sender_id@ == v[a].sender_id@ && old_req[a].sequence
                                == v[a].sequence);
                            assert(old_req[b].sender_id@ == v[b].sender_id@ && old_req[b].sequence
                                == v[b].sequence);
                        }
                    }
                    assert forall|k: int| 0 <= k < v.len() implies unique_strings(
                        (#[trigger] v[k]).peers@,
                    ) && v[k].peers@.len() <= self.max_fanout by {
                        if k != i {
                            assert(v[k] == old_req[k]);
                        }
                    }
                    assert forall|s: Seq<char>, q: u64|
                        !(s == sender && q == seq) implies #[trigger] self.redelivery_peers(s, q)
                        == old(self).redelivery_peers(s, q) by {
                        lemma_req_index(v, s, q);
                        lemma_req_index(old_req, s, q);
                        let a = req_index(v, s, q);
                        let b = req_index(old_req, s, q);
                        if a >= 0 {
                            assert(a != i);
                            assert(v[a] == old_req[a]);
                        }
                        if b >= 0 {
                            assert(b != i);
                            assert(v[b] == old_req[b]);
                        }
                    }
                    assert(req_matches(v[i as int], sender, seq));
                    lemma_req_index(v, sender, seq);
                    assert(self.redelivery_peers(sender, seq) =~= old(self).redelivery_peers(sender, seq).insert(relay_peer@));
                }
                Ok(())
            },
            None => {
                let ghost old_req = self.requested@;
                let mut peers: Vec<String> = Vec::new();
                peers.push(String::from_str(relay_peer));
                let req = RedeliveryRequest {
                    sender_id: packet.sender_id,
                    sequence: packet.sequence,
                    peers,
                };
                self.requested.push(req);
                proof {
                    let v = self.requested@;
                    assert(v == old_req.push(req));
                    assert(peers_view(req.peers@) =~= Set::<Seq<char>>::empty().insert(
                        relay_peer@,
                    )) by {
                        lemma_peers_push(Seq::<String>::empty(), req.peers@[0]);
                        assert(req.peers@ =~= Seq::<String>::empty().push(req.peers@[0]));
                        assert(peers_view(Seq::<String>::empty()) =~= Set::<Seq<char>>::empty());
                    }
                    assert(reqs_unique(v)) by {
                        assert forall|a: int, b: int|
                            0 <= a < v.len() && 0 <= b < v.len() && a != b implies !req_matches(
                            #[trigger] v[a],
                            (#[trigger] v[b]).sender_id@,
                            v[b].sequence,
                        ) by {
                            if a < old_req.len() {
                                assert(v[a] == old_req[a]);
                            }
                            if b < old_req.len() {
                                assert(v[b] == old_req[b]);
                            }
                        }
                    }
                    assert forall|k: int| 0 <= k < v.len() implies unique_strings(
                        (#[trigger] v[k]).peers@,
                    ) && v[k].peers@.len() <= self.max_fanout by {
                        if k < old_req.len() {
                            assert(v[k] == old_req[k]);
                        }
                    }
                    assert forall|s: Seq<char>, q: u64|
                        !(s == sender && q == seq) implies #[trigger] self.redelivery_peers(s, q)
                        == old(self).redelivery_peers(s, q) by {
                        lemma_req_index(v, s, q);
                        lemma_req_index(old_req, s, q);
                        let a = req_index(v, s, q);
                        if a >= 0 {
                            assert(a < old_req.len());
                            assert(v[a] == old_req[a]);
                        }
                        let b = req_index(old_req, s, q);
                        if b >= 0 {
                            assert(v[b] == old_req[b]);
                        }
                    }
                    lemma_req_index(v, sender, seq);
                    assert(req_index(v, sender, seq) == old_req.len());
                    assert(Set::<Seq<char>>::empty().len() == 0);
                    assert(self.redelivery_peers(sender, seq) =~= old(self).redelivery_peers(sender, seq).insert(relay_peer@));
                }
                Ok(())
            },
        }
    }

    /// Number of relay peers asked to redeliver a packet.
    pub fn redelivery_fanout(&self, packet: &PacketId) -> (n: usize)
        requires
            self.wf(),
        ensures
            n == self.redelivery_peers(packet.sender_id@, packet.sequence).len(),
            n <= self.fanout_cap(),
    {
        proof {
            lemma_req_index(self.requested@, packet.sender_id@, packet.sequence);
        }
        match self.find_request(packet) {
            Some(i) => {
                proof {
                    lemma_peers_len(self.requested@[i as int].peers@);
                }
                self.requested[i].peers.len()
            },
            None => 0,
        }
    }
}

impl Default for RedeliveryTracker {
    fn default() -> (r: Self)
        ensures
            r.wf(),
            r.window() == 64,
            r.fanout_cap() == 8,
            forall|s: Seq<char>| !r.knows(s),
    {
        Self::new(64, 8)
    }
}

} // verus!
