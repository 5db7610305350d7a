//! Relay routes with hop and fanout limits.
use vstd::prelude::*;
use crate::keyed::KeyedList;
use crate::text::{contains_string, peers_view, str_equal, unique_strings};

verus! {

/// Overlay hop cap from the product plan.
pub const MAX_RELAY_HOPS: usize = 3;

/// Default per-peer relay fanout/capacity target for voice groups larger than mesh.
pub const DEFAULT_MAX_FANOUT: usize = 8;

/// A selected content-blind route through the overlay.
#[derive(Debug, PartialEq, Eq)]
pub struct RelayRoute {
    /// Ordered peer ids, including source and destination.
    pub path: Vec<String>,
}

/// Character views of the peers on a path.
pub open spec fn path_view(path: Seq<String>) -> Seq<Seq<char>> {
    path.map_values(|p: String| p@)
}

impl Clone for RelayRoute {
    fn clone(&self) -> (r: Self)
        ensures
            r.path@ == self.path@,
    {
        let path = self.path.clone();
        assert(path@ =~= self.path@);
        RelayRoute { path }
    }
}

impl RelayRoute {
    /// Number of overlay edges in this route.
    pub open spec fn hops(&self) -> nat {
        if self.path@.len() == 0 {
            0
        } else {
            (self.path@.len() - 1) as nat
        }
    }

    /// Number of overlay edges in this route.
    pub fn hop_count(&self) -> (n: usize)
        ensures
            n == self.hops(),
    {
        if self.path.len() == 0 {
            0
        } else {
            self.path.len() - 1
        }
    }

    /// True when this route respects the hop cap.
    pub fn within_hop_limit(&self) -> (b: bool)
        ensures
            b == (self.hops() <= MAX_RELAY_HOPS),
    {
        hop_limit_ok(self.hop_count())
    }

    /// True when the route traverses the given peer.
    pub fn contains_peer(&self, peer_id: &str) -> (b: bool)
        ensures
            b == path_view(self.path@).contains(peer_id@),
    {
        let n = self.path.len();
        let mut i: usize = 0;
        while i < n
            invariant
                n == self.path@.len(),
                i <= n,
                forall|j: int| 0 <= j < i ==> (#[trigger] self.path@[j])@ != peer_id@,
            decreases n - i,
        {
            if str_equal(self.path[i].as_str(), peer_id) {
                assert(path_view(self.path@)[i as int] == peer_id@);
                return true;
            }
            i = i + 1;
        }
        assert(!path_view(self.path@).contains(peer_id@)) by {
            if path_view(self.path@).contains(peer_id@) {
                let j = choose|j: int| 0 <= j < path_view(self.path@).len() && path_view(self.path@)[j] == peer_id@;
                assert(self.path@[j]@ == peer_id@);
            }
        }
        false
    }
}

/// Relay topology failures.
#[derive(Debug, PartialEq, Eq)]
pub enum TopologyError {
    /// A requested peer is not part of the topology.
    UnknownPeer(String),
    /// Adding a link would exceed the deterministic fanout limit.
    FanoutLimit(String),
    /// No route exists inside the configured hop cap.
    NoRoute,
}

/// Links of the local overlay graph: the known peers, the peers each one is
/// connected to, and the hop and fanout caps that routing and linking obey.
#[derive(Debug)]
pub struct RelayLinks {
    max_hops: usize,
    max_fanout: usize,
    links: KeyedList<Vec<String>>,
}

impl RelayLinks {
    #[verifier::type_invariant]
    spec fn links_wf(&self) -> bool {
        &&& self.links.wf()
        &&& self.max_fanout >= 1
        &&& forall|k: Seq<char>| #[trigger] self.links.has(k) ==> unique_strings(self.links.at(k)@)
    }

    /// Longest route, in hops, that routing will return.
    pub closed spec fn hop_cap(&self) -> nat {
        self.max_hops as nat
    }

    /// Most links a peer may hold.
    pub closed spec fn fanout_cap(&self) -> nat {
        self.max_fanout as nat
    }

    /// Is `p` a peer of this graph.
    pub closed spec fn known(&self, p: Seq<char>) -> bool {
        self.links.has(p)
    }

    /// Is `b` among the peers that `a` is connected to.
    pub closed spec fn linked(&self, a: Seq<char>, b: Seq<char>) -> bool {
        self.links.has(a) && peers_view(self.links.at(a)@).contains(b)
    }

    /// The peers that `p` is connected to, in link order.
    pub closed spec fn neighbor_seq(&self, p: Seq<char>) -> Seq<Seq<char>> {
        if self.links.has(p) {
            self.links.at(p)@.map_values(|s: String| s@)
        } else {
            Seq::empty()
        }
    }

    /// Number of peers that `p` is connected to.
    pub closed spec fn degree(&self, p: Seq<char>) -> nat {
        peers_view(self.links.at(p)@).len()
    }

    /// May `p` take a link to `other` without passing its fanout cap.
    pub open spec fn fanout_allows(&self, p: Seq<char>, other: Seq<char>) -> bool {
        self.linked(p, other) || self.degree(p) < self.fanout_cap()
    }

    /// An empty graph; a fanout cap of zero is raised to one.
    pub fn new(max_hops: usize, max_fanout: usize) -> (r: Self)
        ensures
            r.hop_cap() == max_hops,
            r.fanout_cap() == if max_fanout == 0 { 1 } else { max_fanout },
            forall|p: Seq<char>| !r.known(p),
    {
        let links: KeyedList<Vec<String>> = KeyedList::new();
        RelayLinks { max_hops, max_fanout: if max_fanout == 0 { 1 } else { max_fanout }, links }
    }

    /// Make `peer_id` a peer of the graph; its links, if any, are kept.
    pub fn add_peer(&mut self, peer_id: &str)
        ensures
            final(self).hop_cap() == old(self).hop_cap(),
            final(self).fanout_cap() == old(self).fanout_cap(),
            forall|p: Seq<char>| #[trigger] final(self).known(p) == (old(self).known(p) || p == peer_id@),
            forall|a: Seq<char>, b: Seq<char>| #[trigger] final(self).linked(a, b) == old(self).linked(a, b),
            forall|p: Seq<char>| old(self).known(p) ==> #[trigger] final(self).degree(p) == old(self).degree(p),
    {
        proof {
            use_type_invariant(&*self);
        }
        if !self.links.contains(peer_id) {
            let mut links = KeyedList::new();
            std::mem::swap(&mut links, &mut self.links);
            let ghost before = links;
            let empty: Vec<String> = Vec::new();
            let ghost e = empty@;
            proof {
                assert(peers_view(empty@) =~= Set::<Seq<char>>::empty()) by {
                    assert(empty@.map_values(|p: String| p@) =~= Seq::<Seq<char>>::empty());
                }
            }
            links.upsert(String::from_str(peer_id), empty);
            proof {
                assert forall|k: Seq<char>| #[trigger] links.has(k) implies unique_strings(links.at(k)@) by {
                    assert(links.view_map().dom().contains(k));
                    if k != peer_id@ {
                        assert(before.view_map().dom().contains(k));
                        assert(links.view_map()[k] == before.view_map()[k]);
                    } else {
                        assert(links.view_map()[k] == empty);
                    }
                }
                assert forall|p: Seq<char>| links.has(p) == (before.has(p) || p == peer_id@) by {
                    assert(links.view_map().dom().contains(p) == links.has(p));
                    assert(before.view_map().dom().contains(p) == before.has(p));
                }
                assert forall|p: Seq<char>| before.has(p) implies links.at(p) == before.at(p) by {
                    assert(links.view_map().dom().contains(p));
                    assert(before.view_map().dom().contains(p));
                    assert(links.view_map()[p] == before.view_map()[p]);
                }
            }
            proof {
                assert(links.view_map().dom().contains(peer_id@));
                assert(links.view_map()[peer_id@] == links.at(peer_id@));
                assert(links.view_map()[peer_id@]@ == e);
            }
            self.links = links;
            proof {
                assert forall|a: Seq<char>, b: Seq<char>| self.linked(a, b) == old(self).linked(a, b) by {
                    if a == peer_id@ {
                        assert(!old(self).links.has(a));
                        assert(!peers_view(e).contains(b));
                    }
                }
            }
        }
    }

    /// Connect two known peers if both stay under the fanout cap; a pair that
    /// is already linked may be connected again.
    pub fn connect(&mut self, a: &str, b: &str) -> (r: Result<(), TopologyError>)
        ensures
            !old(self).known(a@) ==> (r matches Err(TopologyError::UnknownPeer(p)) && p@ == a@),
            old(self).known(a@) && !old(self).known(b@) ==> (r matches Err(TopologyError::UnknownPeer(p)) && p@
                == b@),
            old(self).known(a@) && old(self).known(b@) && !old(self).fanout_allows(a@, b@) ==> (r matches Err(
                TopologyError::FanoutLimit(p),
            ) && p@ == a@),
            old(self).known(a@) && old(self).known(b@) && old(self).fanout_allows(a@, b@)
                && !old(self).fanout_allows(b@, a@) ==> (r matches Err(TopologyError::FanoutLimit(p)) && p@ == b@),
            r is Ok <==> (old(self).known(a@) && old(self).known(b@) && old(self).fanout_allows(a@, b@)
                && old(self).fanout_allows(b@, a@)),
            final(self).hop_cap() == old(self).hop_cap(),
            final(self).fanout_cap() == old(self).fanout_cap(),
            forall|p: Seq<char>| #[trigger] final(self).known(p) == old(self).known(p),
            r is Err ==> *final(self) == *old(self),
            r is Err ==> forall|x: Seq<char>, y: Seq<char>| #[trigger] final(self).linked(x, y) == old(self).linked(
                x,
                y,
            ),
            r is Ok ==> forall|x: Seq<char>, y: Seq<char>| #[trigger] final(self).linked(x, y) == (old(self).linked(
                x,
                y,
            ) || (x == a@ && y == b@) || (x == b@ && y == a@)),
    {
        proof {
            use_type_invariant(&*self);
        }
        if !self.links.contains(a) {
            return Err(TopologyError::UnknownPeer(String::from_str(a)));
        }
        if !self.links.contains(b) {
            return Err(TopologyError::UnknownPeer(String::from_str(b)));
        }
        if !self.allows(a, b) {
            return Err(TopologyError::FanoutLimit(String::from_str(a)));
        }
        if !self.allows(b, a) {
            return Err(TopologyError::FanoutLimit(String::from_str(b)));
        }
        let mut links = KeyedList::new();
        std::mem::swap(&mut links, &mut self.links);
        let ghost before = links;
        link_one(&mut links, a, b);
        let ghost middle = links;
        link_one(&mut links, b, a);
        self.links = links;
        proof {
            assert forall|x: Seq<char>, y: Seq<char>| #[trigger] self.linked(x, y) == (old(self).linked(x, y) || (x
                == a@ && y == b@) || (x == b@ && y == a@)) by {
                if before.has(x) {
                    assert(middle.has(x));
                }
            }
        }
        Ok(())
    }

    fn allows(&self, p: &str, other: &str) -> (b: bool)
        requires
            self.known(p@),
        ensures
            b == self.fanout_allows(p@, other@),
    {
        proof {
            use_type_invariant(self);
        }
        match self.links.get(p) {
            None => false,
            Some(ns) => {
                proof {
                    crate::text::lemma_unique_peers_len(ns@);
                }
                contains_string(ns, other) || ns.len() < self.max_fanout
            },
        }
    }

    /// A fewest-hop route from `source` to `destination` that passes no avoided
    /// peer and stays within the hop cap. Neighbours are tried in the order of
    /// `rank_order` (best-ranked first), then any peer missing from it; the
    /// first route found at the fewest hops wins.
    pub fn route_avoiding(
        &self,
        source: &str,
        destination: &str,
        avoided: &Vec<String>,
        rank_order: &Vec<String>,
    ) -> (r: Result<RelayRoute, TopologyError>)
        ensures
            route_outcome(*self, peers_view(avoided@), source@, destination@, r),
            r matches Ok(route) ==> ranked_search(*self, peers_view(avoided@), source@, destination@, path_view(rank_order@))
                == Some(path_view(route.path@)),
            self.known(source@) && self.known(destination@) && !avoids(peers_view(avoided@), source@) && !avoids(
                peers_view(avoided@),
                destination@,
            ) && r is Err ==> ranked_search(*self, peers_view(avoided@), source@, destination@, path_view(rank_order@)) is None,
    {
        proof {
            use_type_invariant(self);
        }
        if !self.links.contains(source) {
            return Err(TopologyError::UnknownPeer(String::from_str(source)));
        }
        if !self.links.contains(destination) {
            return Err(TopologyError::UnknownPeer(String::from_str(destination)));
        }
        if contains_string(avoided, source) || contains_string(avoided, destination) {
            return Err(TopologyError::NoRoute);
        }
        let ghost g = *self;
        let ghost av = peers_view(avoided@);
        let ghost src = source@;
        let ghost rv = path_view(rank_order@);
        let ghost dv = destination@;
        if str_equal(source, destination) {
            let mut path: Vec<String> = Vec::new();
            path.push(String::from_str(source));
            proof {
                assert(path_view(path@) =~= seq![src]);
                assert(reach(g, av, src, 0).contains(destination@));
                lemma_reach_grows(g, av, src, 0, self.hop_cap());
                assert(route_ok(g, av, src, path@));
            }
            return Ok(RelayRoute { path });
        }
        let mut visited: Vec<String> = Vec::new();
        visited.push(String::from_str(source));
        let mut first: Vec<String> = Vec::new();
        first.push(String::from_str(source));
        let mut frontier: Vec<Vec<String>> = Vec::new();
        frontier.push(first);
        let mut k: usize = 0;
        proof {
            assert(path_view(visited@) =~= seq![src]);
            assert(path_view(frontier@[0]@) =~= seq![src]);
            assert(paths_view(frontier@) =~= seq![seq![src]]);
            assert(peers_view(visited@) =~= reach(g, av, src, 0)) by {
                assert forall|w: Seq<char>| peers_view(visited@).contains(w) == (w == src) by {
                    if w == src {
                        assert(visited@.map_values(|p: String| p@)[0] == src);
                    }
                }
            }
            assert(route_ok(g, av, src, frontier@[0]@));
            assert(path_ends(frontier@) =~= layer(g, av, src, 0)) by {
                assert(frontier@[0]@.last()@ == src);
            }
        }
        while k < self.max_hops && frontier.len() > 0
            invariant
                g == *self,
                av == peers_view(avoided@),
                src == source@,
                self.links.wf(),
                self.known(source@),
                self.known(destination@),
                !avoids(av, src),
                !avoids(av, destination@),
                src != destination@,
                k <= self.max_hops,
                peers_view(visited@) == reach(g, av, src, k as nat),
                forall|f: int| 0 <= f < frontier@.len() ==> route_ok(g, av, src, #[trigger] frontier@[f]@),
                forall|f: int| 0 <= f < frontier@.len() ==> (#[trigger] frontier@[f])@.len() == k + 1,
                forall|f: int, t: int|
                    0 <= f < frontier@.len() && 0 <= t < frontier@[f]@.len() ==> reach(g, av, src, k as nat).contains(
                        (#[trigger] frontier@[f]@[t])@,
                    ),
                path_ends(frontier@) == layer(g, av, src, k as nat),
                !reach(g, av, src, k as nat).contains(destination@),
                rv == path_view(rank_order@),
                dv == destination@,
                search_from(g, paths_view(frontier@), path_view(visited@), k as nat, rv, dv, av) == ranked_search(
                    g,
                    av,
                    src,
                    dv,
                    rv,
                ),
            decreases self.max_hops - k,
        {
            let ghost reached = reach(g, av, src, k as nat);
            let mut next: Vec<Vec<String>> = Vec::new();
            let ghost mut done: Set<Seq<char>> = Set::empty();
            let mut i: usize = 0;
            let ghost fv = paths_view(frontier@);
            let ghost vk = path_view(visited@);
            proof {
                assert(paths_view(next@) =~= Seq::<Seq<Seq<char>>>::empty());
                assert(path_ends(next@) =~= frontier_step(g, av, reached, done));
                assert(peers_view(visited@) =~= reached.union(path_ends(next@)));
            }
            while i < frontier.len()
                invariant
                    g == *self,
                    av == peers_view(avoided@),
                    src == source@,
                    self.links.wf(),
                    self.known(source@),
                    self.known(destination@),
                    !avoids(av, src),
                    !avoids(av, destination@),
                    src != destination@,
                    k < self.max_hops,
                    reached == reach(g, av, src, k as nat),
                    i <= frontier@.len(),
                    forall|f: int| 0 <= f < frontier@.len() ==> route_ok(g, av, src, #[trigger] frontier@[f]@),
                    forall|f: int| 0 <= f < frontier@.len() ==> (#[trigger] frontier@[f])@.len() == k + 1,
                    forall|f: int, t: int|
                        0 <= f < frontier@.len() && 0 <= t < frontier@[f]@.len() ==> reached.contains(
                            (#[trigger] frontier@[f]@[t])@,
                        ),
                    done == Set::new(|u: Seq<char>| exists|f: int| 0 <= f < i && #[trigger] frontier@[f]@.last()@ == u),
                    path_ends(next@) == frontier_step(g, av, reached, done),
                    peers_view(visited@) == reached.union(path_ends(next@)),
                    forall|q: int| 0 <= q < next@.len() ==> route_ok(g, av, src, #[trigger] next@[q]@),
                    forall|q: int| 0 <= q < next@.len() ==> (#[trigger] next@[q])@.len() == k + 2,
                    forall|q: int, t: int|
                        0 <= q < next@.len() && 0 <= t < k + 1 ==> reached.contains((#[trigger] next@[q]@[t])@),
                    !peers_view(visited@).contains(destination@),
                    rv == path_view(rank_order@),
                    dv == destination@,
                    fv == paths_view(frontier@),
                    k < g.hop_cap(),
                    search_from(g, fv, vk, k as nat, rv, dv, av) == ranked_search(g, av, src, dv, rv),
                    layer_pass(g, (None, vk, Seq::empty()), fv, i as int, rv, dv, av) == (
                        None::<Seq<Seq<char>>>,
                        path_view(visited@),
                        paths_view(next@),
                    ),
                decreases frontier@.len() - i,
            {
                let path = &frontier[i];
                let u = &path[path.len() - 1];
                let ghost uv = u@;
                let ghost li = layer_pass(g, (None, vk, Seq::empty()), fv, i as int, rv, dv, av);
                let ghost pv = path_view(path@);
                proof {
                    assert(fv[i as int] == pv);
                    assert(pv.last() == uv);
                }
                let ghost mut cands: Set<Seq<char>> = Set::empty();
                proof {
                    assert(path@.last()@ == uv);
                    assert(frontier_step(g, av, reached, done) =~= frontier_step(g, av, reached, done).union(
                        frontier_step(g, av, reached, set![uv]).intersect(cands),
                    ));
                }
                match self.links.get(u.as_str()) {
                    None => {
                        proof {
                            assert forall|w: Seq<char>| !#[trigger] g.linked(uv, w) by {}
                            cands = Set::full();
                            let nsv = g.neighbor_seq(uv);
                            assert(nsv =~= Seq::<Seq<char>>::empty());
                            lemma_ranked_no_neighbours(li, pv, nsv, rv, rv.len() as int, dv, av);
                            assert(layer_pass(g, (None, vk, Seq::empty()), fv, i + 1, rv, dv, av) == (
                                None::<Seq<Seq<char>>>,
                                path_view(visited@),
                                paths_view(next@),
                            ));
                        }
                    },
                    Some(ns) => {
                        proof {
                            assert(path_view(ns@) == g.neighbor_seq(uv));
                        }
                        let mut j: usize = 0;
                        while j < rank_order.len()
                            invariant
                                g == *self,
                                av == peers_view(avoided@),
                                src == source@,
                                self.links.wf(),
                                self.known(source@),
                                self.known(destination@),
                                !avoids(av, src),
                                !avoids(av, destination@),
                                k < self.max_hops,
                                reached == reach(g, av, src, k as nat),
                                route_ok(g, av, src, path@),
                                path@.len() == k + 1,
                                path@.last()@ == uv,
                                forall|t: int| 0 <= t < path@.len() ==> reached.contains((#[trigger] path@[t])@),
                                *ns == self.links.at(uv),
                                self.links.has(uv),
                                j <= rank_order@.len(),
                                cands == Set::new(|w: Seq<char>| exists|j2: int| 0 <= j2 < j && #[trigger] rank_order@[j2]@ == w),
                                path_ends(next@) == frontier_step(g, av, reached, done).union(
                                    frontier_step(g, av, reached, set![uv]).intersect(cands),
                                ),
                                peers_view(visited@) == reached.union(path_ends(next@)),
                                forall|q: int| 0 <= q < next@.len() ==> route_ok(g, av, src, #[trigger] next@[q]@),
                                forall|q: int| 0 <= q < next@.len() ==> (#[trigger] next@[q])@.len() == k + 2,
                                forall|q: int, t: int|
                                    0 <= q < next@.len() && 0 <= t < k + 1 ==> reached.contains(
                                        (#[trigger] next@[q]@[t])@,
                                    ),
                                !peers_view(visited@).contains(destination@),
                                rv == path_view(rank_order@),
                                dv == destination@,
                                fv == paths_view(frontier@),
                                k < g.hop_cap(),
                                i < fv.len(),
                                fv[i as int] == pv,
                                pv == path_view(path@),
                                pv.last() == uv,
                                path_view(ns@) == g.neighbor_seq(uv),
                                li == layer_pass(g, (None, vk, Seq::empty()), fv, i as int, rv, dv, av),
                                search_from(g, fv, vk, k as nat, rv, dv, av) == ranked_search(g, av, src, dv, rv),
                                ranked_pass(li, pv, path_view(ns@), rv, j as int, dv, av) == (
                                    None::<Seq<Seq<char>>>,
                                    path_view(visited@),
                                    paths_view(next@),
                                ),
                            decreases rank_order@.len() - j,
                        {
                            let x = &rank_order[j];
                            proof {
                                assert(rv[j as int] == x@);
                            }
                            let ghost before_cands = cands;
                            proof {
                                cands = cands.insert(x@);
                                assert(cands =~= Set::new(|w: Seq<char>| exists|j2: int| 0 <= j2 < j + 1 && #[trigger] rank_order@[j2]@ == w)) by {
                                    assert forall|w: Seq<char>| cands.contains(w) implies exists|j2: int| 0 <= j2 < j + 1 && #[trigger] rank_order@[j2]@ == w by {
                                        if w == x@ {
                                            assert(rank_order@[j as int]@ == w);
                                        } else {
                                            assert(before_cands.contains(w));
                                        }
                                    }
                                }
                            }
                            if contains_string(ns, x.as_str()) {
                                let ghost st_before = (None::<Seq<Seq<char>>>, path_view(visited@), paths_view(next@));
                                proof {
                                    assert(path_view(ns@).contains(x@));
                                    assert(ranked_pass(li, pv, path_view(ns@), rv, j + 1, dv, av) == visit_step(
                                        st_before,
                                        pv,
                                        x@,
                                        dv,
                                        av,
                                    ));
                                }
                                let found = self.visit(path, x.as_str(), destination, avoided, &mut visited, &mut next, Ghost(src), Ghost(k as nat), Ghost(reached), Ghost(frontier_step(g, av, reached, done).union(frontier_step(g, av, reached, set![uv]).intersect(before_cands))));
                                proof {
                                    let vs = visit_step(st_before, pv, x@, dv, av);
                                    assert(vs.1 == path_view(visited@));
                                    assert(vs.2 == paths_view(next@));
                                    assert(found is None ==> vs.0 is None);
                                    assert(found matches Some(r) ==> vs.0 == Some(path_view(r.path@)));
                                }
                                if let Some(route) = found {
                                    proof {
                                        let nsv = path_view(ns@);
                                        lemma_ranked_keeps(li, pv, nsv, rv, j + 1, rv.len() as int, dv, av);
                                        lemma_plain_found(ranked_pass(li, pv, nsv, rv, rv.len() as int, dv, av), pv, nsv, nsv.len() as int, dv, av);
                                        assert(layer_pass(g, (None, vk, Seq::empty()), fv, i + 1, rv, dv, av).0 == Some(path_view(route.path@)));
                                        lemma_found_in_layer(g, fv, vk, k as nat, i + 1, rv, dv, av);
                                        assert(path@[path@.len() - 1] == path@.last());
                                        assert(reached.contains(uv));
                                        assert(peers_view(ns@).contains(x@));
                                        self.lemma_found_reaches(av, src, k as nat, uv, destination@);
                                    }
                                    return Ok(route);
                                }
                                proof {
                                    assert(path_ends(next@) =~= frontier_step(g, av, reached, done).union(frontier_step(g, av, reached, set![uv]).intersect(cands)));
                                }
                            } else {
                                proof {
                                    assert(!path_view(ns@).contains(x@));
                                    assert(frontier_step(g, av, reached, set![uv]).intersect(cands) =~= frontier_step(g, av, reached, set![uv]).intersect(before_cands)) by {
                                        assert forall|w: Seq<char>| frontier_step(g, av, reached, set![uv]).contains(w) implies g.linked(uv, w) by {
                                            let u2 = choose|u2: Seq<char>| set![uv].contains(u2) && #[trigger] g.linked(u2, w);
                                            assert(u2 == uv);
                                        }
                                    }
                                }
                            }
                            j = j + 1;
                        }
                        let ghost ranked = cands;
                        let mut j2: usize = 0;
                        proof {
                            assert(cands =~= Set::new(|w: Seq<char>| peers_view(rank_order@).contains(w) || exists|j3: int| 0 <= j3 < j2 && #[trigger] ns@[j3]@ == w)) by {
                                assert forall|w: Seq<char>| cands.contains(w) implies peers_view(rank_order@).contains(w) by {
                                    let j3 = choose|j3: int| 0 <= j3 < rank_order@.len() && #[trigger] rank_order@[j3]@ == w;
                                    assert(rank_order@.map_values(|p: String| p@)[j3] == w);
                                }
                                assert forall|w: Seq<char>| peers_view(rank_order@).contains(w) implies cands.contains(w) by {
                                    let m = rank_order@.map_values(|p: String| p@);
                                    let j3 = choose|j3: int| 0 <= j3 < m.len() && m[j3] == w;
                                    assert(rank_order@[j3]@ == w);
                                }
                            }
                        }
                        while j2 < ns.len()
                            invariant
                                g == *self,
                                av == peers_view(avoided@),
                                src == source@,
                                self.links.wf(),
                                self.known(source@),
                                self.known(destination@),
                                !avoids(av, src),
                                !avoids(av, destination@),
                                k < self.max_hops,
                                reached == reach(g, av, src, k as nat),
                                route_ok(g, av, src, path@),
                                path@.len() == k + 1,
                                path@.last()@ == uv,
                                forall|t: int| 0 <= t < path@.len() ==> reached.contains((#[trigger] path@[t])@),
                                *ns == self.links.at(uv),
                                self.links.has(uv),
                                j2 <= ns@.len(),
                                cands == Set::new(|w: Seq<char>| peers_view(rank_order@).contains(w) || exists|j3: int| 0 <= j3 < j2 && #[trigger] ns@[j3]@ == w),
                                path_ends(next@) == frontier_step(g, av, reached, done).union(
                                    frontier_step(g, av, reached, set![uv]).intersect(cands),
                                ),
                                peers_view(visited@) == reached.union(path_ends(next@)),
                                forall|q: int| 0 <= q < next@.len() ==> route_ok(g, av, src, #[trigger] next@[q]@),
                                forall|q: int| 0 <= q < next@.len() ==> (#[trigger] next@[q])@.len() == k + 2,
                                forall|q: int, t: int|
                                    0 <= q < next@.len() && 0 <= t < k + 1 ==> reached.contains(
                                        (#[trigger] next@[q]@[t])@,
                                    ),
                                !peers_view(visited@).contains(destination@),
                                rv == path_view(rank_order@),
                                dv == destination@,
                                fv == paths_view(frontier@),
                                k < g.hop_cap(),
                                i < fv.len(),
                                fv[i as int] == pv,
                                pv == path_view(path@),
                                pv.last() == uv,
                                path_view(ns@) == g.neighbor_seq(uv),
                                li == layer_pass(g, (None, vk, Seq::empty()), fv, i as int, rv, dv, av),
                                search_from(g, fv, vk, k as nat, rv, dv, av) == ranked_search(g, av, src, dv, rv),
                                plain_pass(
                                    ranked_pass(li, pv, path_view(ns@), rv, rv.len() as int, dv, av),
                                    pv,
                                    path_view(ns@),
                                    j2 as int,
                                    dv,
                                    av,
                                ) == (None::<Seq<Seq<char>>>, path_view(visited@), paths_view(next@)),
                            decreases ns@.len() - j2,
                        {
                            let y = &ns[j2];
                            proof {
                                assert(path_view(ns@)[j2 as int] == y@);
                            }
                            let ghost before_cands = cands;
                            proof {
                                cands = cands.insert(y@);
                                assert(cands =~= Set::new(|w: Seq<char>| peers_view(rank_order@).contains(w) || exists|j3: int| 0 <= j3 < j2 + 1 && #[trigger] ns@[j3]@ == w)) by {
                                    assert forall|w: Seq<char>| cands.contains(w) implies peers_view(rank_order@).contains(w) || exists|j3: int| 0 <= j3 < j2 + 1 && #[trigger] ns@[j3]@ == w by {
                                        if w == y@ {
                                            assert(ns@[j2 as int]@ == w);
                                        } else {
                                            assert(before_cands.contains(w));
                                        }
                                    }
                                }
                                assert(peers_view(ns@).contains(y@)) by {
                                    assert(ns@.map_values(|p: String| p@)[j2 as int] == y@);
                                }
                                assert(g.linked(uv, y@));
                            }
                            let ghost st_before = (None::<Seq<Seq<char>>>, path_view(visited@), paths_view(next@));
                            proof {
                                assert(plain_pass(
                                    ranked_pass(li, pv, path_view(ns@), rv, rv.len() as int, dv, av),
                                    pv,
                                    path_view(ns@),
                                    j2 + 1,
                                    dv,
                                    av,
                                ) == visit_step(st_before, pv, y@, dv, av));
                            }
                            let found = self.visit(path, y.as_str(), destination, avoided, &mut visited, &mut next, Ghost(src), Ghost(k as nat), Ghost(reached), Ghost(frontier_step(g, av, reached, done).union(frontier_step(g, av, reached, set![uv]).intersect(before_cands))));
                            proof {
                                let vs = visit_step(st_before, pv, y@, dv, av);
                                assert(vs.1 == path_view(visited@));
                                assert(vs.2 == paths_view(next@));
                                assert(found is None ==> vs.0 is None);
                                assert(found matches Some(r) ==> vs.0 == Some(path_view(r.path@)));
                            }
                            if let Some(route) = found {
                                proof {
                                    assert(path@[path@.len() - 1] == path@.last());
                                    assert(reached.contains(uv));
                                    self.lemma_found_reaches(av, src, k as nat, uv, destination@);
                                    let nsv = path_view(ns@);
                                    let rr = ranked_pass(li, pv, nsv, rv, rv.len() as int, dv, av);
                                    lemma_plain_keeps(rr, pv, nsv, j2 + 1, nsv.len() as int, dv, av);
                                    assert(layer_pass(g, (None, vk, Seq::empty()), fv, i + 1, rv, dv, av).0 == Some(path_view(route.path@)));
                                    lemma_found_in_layer(g, fv, vk, k as nat, i + 1, rv, dv, av);
                                }
                                return Ok(route);
                            }
                            proof {
                                assert(path_ends(next@) =~= frontier_step(g, av, reached, done).union(frontier_step(g, av, reached, set![uv]).intersect(cands)));
                            }
                            j2 = j2 + 1;
                        }
                        proof {
                            assert forall|w: Seq<char>| #[trigger] g.linked(uv, w) implies cands.contains(w) by {
                                let m = ns@.map_values(|p: String| p@);
                                let j3 = choose|j3: int| 0 <= j3 < m.len() && m[j3] == w;
                                assert(ns@[j3]@ == w);
                            }
                            assert(layer_pass(g, (None, vk, Seq::empty()), fv, i + 1, rv, dv, av) == (
                                None::<Seq<Seq<char>>>,
                                path_view(visited@),
                                paths_view(next@),
                            ));
                        }
                    },
                }
                proof {
                    assert(frontier_step(g, av, reached, set![uv]).subset_of(cands)) by {
                        assert forall|w: Seq<char>| frontier_step(g, av, reached, set![uv]).contains(w) implies cands.contains(w) by {
                            let u2 = choose|u2: Seq<char>| set![uv].contains(u2) && #[trigger] g.linked(u2, w);
                            assert(u2 == uv);
                        }
                    }
                    let new_done = done.insert(uv);
                    assert(frontier_step(g, av, reached, done).union(frontier_step(g, av, reached, set![uv]).intersect(cands)) =~= frontier_step(g, av, reached, new_done)) by {
                        assert forall|w: Seq<char>| frontier_step(g, av, reached, new_done).contains(w) implies frontier_step(g, av, reached, done).contains(w) || frontier_step(g, av, reached, set![uv]).contains(w) by {
                            let u2 = choose|u2: Seq<char>| new_done.contains(u2) && #[trigger] g.linked(u2, w);
                            if u2 == uv {
                                assert(set![uv].contains(u2));
                            } else {
                                assert(done.contains(u2));
                            }
                        }
                        assert forall|w: Seq<char>| frontier_step(g, av, reached, set![uv]).contains(w) implies frontier_step(g, av, reached, new_done).contains(w) by {
                            let u2 = choose|u2: Seq<char>| set![uv].contains(u2) && #[trigger] g.linked(u2, w);
                            assert(new_done.contains(u2));
                        }
                        assert forall|w: Seq<char>| frontier_step(g, av, reached, done).contains(w) implies frontier_step(g, av, reached, new_done).contains(w) by {
                            let u2 = choose|u2: Seq<char>| done.contains(u2) && #[trigger] g.linked(u2, w);
                            assert(new_done.contains(u2));
                        }
                    }
                    assert(new_done =~= Set::new(|u: Seq<char>| exists|f: int| 0 <= f < i + 1 && #[trigger] frontier@[f]@.last()@ == u)) by {
                        assert(frontier@[i as int]@.last()@ == uv);
                        assert forall|u2: Seq<char>| (exists|f: int| 0 <= f < i + 1 && #[trigger] frontier@[f]@.last()@ == u2) implies new_done.contains(u2) by {
                            let f = choose|f: int| 0 <= f < i + 1 && #[trigger] frontier@[f]@.last()@ == u2;
                            if f < i {
                                assert(done.contains(u2));
                            }
                        }
                    }
                    done = new_done;
                }
                i = i + 1;
            }
            proof {
                assert(fv.len() == frontier@.len());
                assert(search_from(g, fv, vk, k as nat, rv, dv, av) == search_from(
                    g,
                    paths_view(next@),
                    path_view(visited@),
                    (k + 1) as nat,
                    rv,
                    dv,
                    av,
                ));
                assert(done =~= path_ends(frontier@));
                lemma_next_layer(g, av, src, k as nat);
                lemma_reach_grows(g, av, src, k as nat, (k + 1) as nat);
                let nr = reach(g, av, src, (k + 1) as nat);
                assert(peers_view(visited@) =~= nr);
                assert forall|f: int, t: int| 0 <= f < next@.len() && 0 <= t < next@[f]@.len() implies nr.contains((#[trigger] next@[f]@[t])@) by {
                    if t < k + 1 {
                        assert(reached.contains(next@[f]@[t]@));
                    } else {
                        assert(next@[f]@.last() == next@[f]@[t]);
                        assert(path_ends(next@).contains(next@[f]@.last()@));
                    }
                }
            }
            frontier = next;
            k = k + 1;
        }
        proof {
            if k < self.max_hops {
                assert(frontier@.len() == 0);
                assert(path_ends(frontier@) =~= Set::<Seq<char>>::empty());
                if k == 0 {
                    assert(layer(g, av, src, 0).contains(src));
                } else {
                    let km = (k - 1) as nat;
                    lemma_reach_grows(g, av, src, km, k as nat);
                    assert forall|w: Seq<char>| reach(g, av, src, k as nat).contains(w) implies reach(g, av, src, km).contains(w) by {
                        if !reach(g, av, src, km).contains(w) {
                            assert(layer(g, av, src, k as nat).contains(w));
                            assert(path_ends(frontier@).contains(w));
                        }
                    }
                    assert(reach(g, av, src, k as nat) =~= reach(g, av, src, km));
                    assert(reach(g, av, src, km + 1) == reach(g, av, src, k as nat));
                    lemma_reach_stable(g, av, src, km, self.hop_cap());
                }
            }
            assert(search_from(g, paths_view(frontier@), path_view(visited@), k as nat, rv, dv, av) is None);
        }
        Err(TopologyError::NoRoute)
    }

    proof fn lemma_found_reaches(&self, avoided: Set<Seq<char>>, source: Seq<char>, k: nat, u: Seq<char>, destination: Seq<char>)
        requires
            k < self.hop_cap(),
            reach(*self, avoided, source, k).contains(u),
            self.linked(u, destination),
            !avoids(avoided, destination),
        ensures
            reach(*self, avoided, source, self.hop_cap()).contains(destination),
    {
        let r = reach(*self, avoided, source, k);
        if !r.contains(destination) {
            assert(frontier_step(*self, avoided, r, r).contains(destination));
        }
        assert(reach(*self, avoided, source, k + 1).contains(destination));
        lemma_reach_grows(*self, avoided, source, k + 1, self.hop_cap());
    }

    /// Try `x` as the next peer after `path`: a new, non-avoided peer extends
    /// the path; the destination ends the search.
    fn visit(
        &self,
        path: &Vec<String>,
        x: &str,
        destination: &str,
        avoided: &Vec<String>,
        visited: &mut Vec<String>,
        next: &mut Vec<Vec<String>>,
        Ghost(src): Ghost<Seq<char>>,
        Ghost(k): Ghost<nat>,
        Ghost(reached): Ghost<Set<Seq<char>>>,
        Ghost(target): Ghost<Set<Seq<char>>>,
    ) -> (found: Option<RelayRoute>)
        requires
            route_ok(*self, peers_view(avoided@), src, path@),
            path@.len() == k + 1,
            forall|t: int| 0 <= t < path@.len() ==> reached.contains((#[trigger] path@[t])@),
            self.linked(path@.last()@, x@),
            path_ends(old(next)@) == target,
            peers_view(old(visited)@) == reached.union(target),
            forall|q: int| 0 <= q < old(next)@.len() ==> route_ok(*self, peers_view(avoided@), src, #[trigger] old(next)@[q]@),
            forall|q: int| 0 <= q < old(next)@.len() ==> (#[trigger] old(next)@[q])@.len() == k + 2,
            forall|q: int, t: int|
                0 <= q < old(next)@.len() && 0 <= t < k + 1 ==> reached.contains((#[trigger] old(next)@[q]@[t])@),
            !peers_view(old(visited)@).contains(destination@),
            !avoids(peers_view(avoided@), destination@),
        ensures
            match found {
                Some(r) => {
                    &&& x@ == destination@
                    &&& route_ok(*self, peers_view(avoided@), src, r.path@)
                    &&& r.path@.len() == k + 2
                    &&& r.path@.last()@ == destination@
                },
                None => {
                    let added = frontier_step(*self, peers_view(avoided@), reached, set![path@.last()@]).intersect(set![x@]);
                    &&& path_ends(final(next)@) == target.union(added)
                    &&& peers_view(final(visited)@) == reached.union(target.union(added))
                    &&& forall|q: int| 0 <= q < final(next)@.len() ==> route_ok(*self, peers_view(avoided@), src, #[trigger] final(next)@[q]@)
                    &&& forall|q: int| 0 <= q < final(next)@.len() ==> (#[trigger] final(next)@[q])@.len() == k + 2
                    &&& forall|q: int, t: int|
                        0 <= q < final(next)@.len() && 0 <= t < k + 1 ==> reached.contains((#[trigger] final(next)@[q]@[t])@)
                    &&& !peers_view(final(visited)@).contains(destination@)
                },
            },
            visit_step(
                (None, path_view(old(visited)@), paths_view(old(next)@)),
                path_view(path@),
                x@,
                destination@,
                peers_view(avoided@),
            ).0 == match found {
                Some(r) => Some(path_view(r.path@)),
                None => None::<Seq<Seq<char>>>,
            },
            visit_step(
                (None, path_view(old(visited)@), paths_view(old(next)@)),
                path_view(path@),
                x@,
                destination@,
                peers_view(avoided@),
            ).1 == path_view(final(visited)@),
            visit_step(
                (None, path_view(old(visited)@), paths_view(old(next)@)),
                path_view(path@),
                x@,
                destination@,
                peers_view(avoided@),
            ).2 == paths_view(final(next)@),
    {
        let ghost g = *self;
        proof {
            assert(peers_view(visited@).contains(x@) == path_view(visited@).contains(x@));
        }
        let ghost av = peers_view(avoided@);
        let ghost u = path@.last()@;
        let ghost step = frontier_step(g, av, reached, set![u]);
        if contains_string(avoided, x) || contains_string(visited, x) {
            proof {
                assert(target.union(step.intersect(set![x@])) =~= target) by {
                    if step.contains(x@) {
                        assert(!avoids(av, x@));
                        assert(!reached.contains(x@));
                        assert(target.contains(x@));
                    }
                }
            }
            return None;
        }
        let mut np = path.clone();
        assert(np@ == path@);
        np.push(String::from_str(x));
        proof {
            assert(np@.len() == k + 2);
            assert forall|t: int| 0 < t < np@.len() implies #[trigger] hop_linked(g, np@, t) by {
                if t < np@.len() - 1 {
                    assert(hop_linked(g, path@, t));
                } else {
                    assert(np@[t - 1] == path@.last());
                }
            }
            assert forall|t: int| 0 <= t < np@.len() implies !avoids(av, #[trigger] np@[t]@) by {
                if t < np@.len() - 1 {
                    assert(!avoids(av, path@[t]@));
                }
            }
            assert forall|a: int, b: int| 0 <= a < np@.len() && 0 <= b < np@.len() && a != b implies (#[trigger] np@[a])@ != (#[trigger] np@[b])@ by {
                if a == np@.len() - 1 && b < np@.len() - 1 {
                    assert(reached.contains(path@[b]@));
                    assert(peers_view(visited@).contains(path@[b]@));
                } else if b == np@.len() - 1 && a < np@.len() - 1 {
                    assert(reached.contains(path@[a]@));
                    assert(peers_view(visited@).contains(path@[a]@));
                } else if a < np@.len() - 1 && b < np@.len() - 1 {
                    assert(path@[a] == np@[a] && path@[b] == np@[b]);
                }
            }
            assert(route_ok(g, av, src, np@));
        }
        proof {
            assert(path_view(np@) =~= path_view(path@).push(x@));
        }
        if str_equal(x, destination) {
            return Some(RelayRoute { path: np });
        }
        let ghost old_next = next@;
        let ghost old_visited = visited@;
        let ghost npv = path_view(np@);
        visited.push(String::from_str(x));
        next.push(np);
        proof {
            assert(path_view(visited@) =~= path_view(old_visited).push(x@));
            assert(paths_view(next@) =~= paths_view(old_next).push(npv));
            assert(step.contains(x@)) by {
                assert(set![u].contains(u));
                assert(g.linked(u, x@));
            }
            assert(step.intersect(set![x@]) =~= set![x@]);
            assert(path_ends(next@) =~= target.insert(x@)) by {
                assert(next@[old_next.len() as int]@.last()@ == x@);
                assert forall|w: Seq<char>| path_ends(next@).contains(w) implies target.insert(x@).contains(w) by {
                    let q = choose|q: int| 0 <= q < next@.len() && #[trigger] next@[q]@.last()@ == w;
                    if q < old_next.len() {
                        assert(next@[q] == old_next[q]);
                    }
                }
                assert forall|w: Seq<char>| target.contains(w) implies path_ends(next@).contains(w) by {
                    let q = choose|q: int| 0 <= q < old_next.len() && #[trigger] old_next[q]@.last()@ == w;
                    assert(next@[q] == old_next[q]);
                }
            }
            assert(visited@.map_values(|p: String| p@) =~= old_visited.map_values(|p: String| p@).push(x@));
            old_visited.map_values(|p: String| p@).lemma_push_to_set_commute(x@);
            assert(peers_view(visited@) =~= reached.union(target.insert(x@)));
            assert forall|q: int| 0 <= q < next@.len() implies route_ok(g, av, src, #[trigger] next@[q]@) && next@[q]@.len() == k + 2 by {
                if q < old_next.len() {
                    assert(next@[q] == old_next[q]);
                }
            }
            assert forall|q: int, t: int| 0 <= q < next@.len() && 0 <= t < k + 1 implies reached.contains((#[trigger] next@[q]@[t])@) by {
                if q < old_next.len() {
                    assert(next@[q] == old_next[q]);
                } else {
                    assert(next@[q]@[t] == path@[t]);
                }
            }
        }
        None
    }

    /// A fewest-hop route within the hop cap, avoiding no peer.
    pub fn route(&self, source: &str, destination: &str, rank_order: &Vec<String>) -> (r: Result<
        RelayRoute,
        TopologyError,
    >)
        ensures
            route_outcome(*self, Set::empty(), source@, destination@, r),
            r matches Ok(route) ==> ranked_search(*self, Set::empty(), source@, destination@, path_view(rank_order@))
                == Some(path_view(route.path@)),
    {
        let none: Vec<String> = Vec::new();
        proof {
            assert(none@ =~= Seq::<String>::empty());
            assert(peers_view(none@) =~= Set::<Seq<char>>::empty()) by {
                assert(none@.map_values(|p: String| p@) =~= Seq::<Seq<char>>::empty());
            }
        }
        self.route_avoiding(source, destination, &none, rank_order)
    }

    /// Number of currently connected neighbours of a peer, `None` for an unknown peer.
    pub fn peer_degree(&self, peer_id: &str) -> (r: Option<usize>)
        ensures
            match r {
                None => !self.known(peer_id@),
                Some(n) => self.known(peer_id@) && n == self.degree(peer_id@),
            },
    {
        proof {
            use_type_invariant(self);
        }
        match self.links.get(peer_id) {
            None => None,
            Some(ns) => {
                proof {
                    crate::text::lemma_unique_peers_len(ns@);
                }
                Some(ns.len())
            },
        }
    }

    /// The peers a known peer is connected to (each once); empty for an unknown peer.
    pub fn neighbors(&self, peer_id: &str) -> (r: Vec<String>)
        ensures
            unique_strings(r@),
            forall|b: Seq<char>| peers_view(r@).contains(b) == self.linked(peer_id@, b),
    {
        proof {
            use_type_invariant(self);
        }
        match self.links.get(peer_id) {
            None => Vec::new(),
            Some(ns) => {
                let r = ns.clone();
                assert(r@ == ns@);
                r
            },
        }
    }
}

/// What routing from `source` to `destination` avoiding `avoided` may return:
/// an unknown endpoint is reported first; an avoided endpoint gives `NoRoute`;
/// otherwise a route exists exactly when the destination is reachable within
/// the hop cap, and the route returned is valid, within the cap, and has the
/// fewest hops.
pub open spec fn route_outcome(
    g: RelayLinks,
    avoided: Set<Seq<char>>,
    source: Seq<char>,
    destination: Seq<char>,
    r: Result<RelayRoute, TopologyError>,
) -> bool {
    &&& !g.known(source) ==> (r matches Err(TopologyError::UnknownPeer(p)) && p@ == source)
    &&& g.known(source) && !g.known(destination) ==> (r matches Err(TopologyError::UnknownPeer(p)) && p@ == destination)
    &&& g.known(source) && g.known(destination) && (avoids(avoided, source) || avoids(avoided, destination)) ==> r
        == Err::<RelayRoute, TopologyError>(TopologyError::NoRoute)
    &&& g.known(source) && g.known(destination) && !avoids(avoided, source) && !avoids(avoided, destination) ==> {
        &&& r is Ok <==> reach(g, avoided, source, g.hop_cap()).contains(destination)
        &&& r is Err ==> r == Err::<RelayRoute, TopologyError>(TopologyError::NoRoute)
    }
    &&& r matches Ok(route) ==> {
        &&& route_ok(g, avoided, source, route.path@)
        &&& route.path@.last()@ == destination
        &&& route.path@.len() - 1 <= g.hop_cap()
        &&& route.path@.len() >= 2 ==> !reach(g, avoided, source, (route.path@.len() - 2) as nat).contains(destination)
    }
}

/// What rerouting `previous` around `failed_peer` may return: the previous
/// route's endpoints are routed again with the failed peer avoided.
pub open spec fn reroute_outcome(
    g: RelayLinks,
    previous: RelayRoute,
    failed_peer: Seq<char>,
    convergence_ms: u64,
    r: Result<FailoverDecision, TopologyError>,
) -> bool {
    &&& previous.path@.len() == 0 ==> r == Err::<FailoverDecision, TopologyError>(TopologyError::NoRoute)
    &&& previous.path@.len() > 0 ==> route_outcome(
        g,
        set![failed_peer],
        previous.path@[0]@,
        previous.path@.last()@,
        match r {
            Ok(d) => Ok(d.replacement),
            Err(e) => Err(e),
        },
    )
    &&& r matches Ok(d) ==> {
        &&& d.previous == previous
        &&& d.failed_peer@ == failed_peer
        &&& d.convergence_ms == convergence_ms
        &&& !path_view(d.replacement.path@).contains(failed_peer)
    }
}

/// Search state: the route found, if any; the peers visited so far, in order;
/// and the paths of the next layer, in order.
pub type SearchState = (Option<Seq<Seq<char>>>, Seq<Seq<char>>, Seq<Seq<Seq<char>>>);

/// Try `x` after `path`: once a route is found nothing changes; an avoided or
/// visited peer is skipped; the destination ends the search; any other peer
/// is visited and its path joins the next layer.
pub open spec fn visit_step(
    st: SearchState,
    path: Seq<Seq<char>>,
    x: Seq<char>,
    destination: Seq<char>,
    avoided: Set<Seq<char>>,
) -> SearchState {
    if st.0 is Some || avoids(avoided, x) || st.1.contains(x) {
        st
    } else if x == destination {
        (Some(path.push(x)), st.1, st.2)
    } else {
        (None, st.1.push(x), st.2.push(path.push(x)))
    }
}

/// Visit, in the order of `rank` (first `j` entries), the ranked peers that
/// are neighbours `ns` of the end of `path`.
pub open spec fn ranked_pass(
    st: SearchState,
    path: Seq<Seq<char>>,
    ns: Seq<Seq<char>>,
    rank: Seq<Seq<char>>,
    j: int,
    destination: Seq<char>,
    avoided: Set<Seq<char>>,
) -> SearchState
    decreases j,
{
    if j <= 0 {
        st
    } else {
        let prev = ranked_pass(st, path, ns, rank, j - 1, destination, avoided);
        if ns.contains(rank[j - 1]) {
            visit_step(prev, path, rank[j - 1], destination, avoided)
        } else {
            prev
        }
    }
}

/// Visit the first `j` neighbours `ns` in their own order.
pub open spec fn plain_pass(
    st: SearchState,
    path: Seq<Seq<char>>,
    ns: Seq<Seq<char>>,
    j: int,
    destination: Seq<char>,
    avoided: Set<Seq<char>>,
) -> SearchState
    decreases j,
{
    if j <= 0 {
        st
    } else {
        visit_step(plain_pass(st, path, ns, j - 1, destination, avoided), path, ns[j - 1], destination, avoided)
    }
}

/// Expand `path`: its ranked neighbours first, best-ranked first, then the rest
/// in link order.
pub open spec fn expand_path(
    g: RelayLinks,
    st: SearchState,
    path: Seq<Seq<char>>,
    rank: Seq<Seq<char>>,
    destination: Seq<char>,
    avoided: Set<Seq<char>>,
) -> SearchState {
    let ns = g.neighbor_seq(path.last());
    plain_pass(ranked_pass(st, path, ns, rank, rank.len() as int, destination, avoided), path, ns, ns.len() as int, destination, avoided)
}

/// Expand the first `i` paths of a layer, in order.
pub open spec fn layer_pass(
    g: RelayLinks,
    st: SearchState,
    frontier: Seq<Seq<Seq<char>>>,
    i: int,
    rank: Seq<Seq<char>>,
    destination: Seq<char>,
    avoided: Set<Seq<char>>,
) -> SearchState
    decreases i,
{
    if i <= 0 {
        st
    } else {
        expand_path(g, layer_pass(g, st, frontier, i - 1, rank, destination, avoided), frontier[i - 1], rank, destination, avoided)
    }
}

/// Breadth-first search from layer `k` on: the route found first, layer by
/// layer, within the hop cap.
pub open spec fn search_from(
    g: RelayLinks,
    frontier: Seq<Seq<Seq<char>>>,
    visited: Seq<Seq<char>>,
    k: nat,
    rank: Seq<Seq<char>>,
    destination: Seq<char>,
    avoided: Set<Seq<char>>,
) -> Option<Seq<Seq<char>>>
    decreases g.hop_cap() - k,
{
    if k >= g.hop_cap() || frontier.len() == 0 {
        None
    } else {
        let st = layer_pass(g, (None, visited, Seq::empty()), frontier, frontier.len() as int, rank, destination, avoided);
        if st.0 is Some {
            st.0
        } else {
            search_from(g, st.2, st.1, k + 1, rank, destination, avoided)
        }
    }
}

/// The route breadth-first search finds from `source` to `destination`
/// around `avoided`, trying neighbours by `rank` and then in link order.
pub open spec fn ranked_search(
    g: RelayLinks,
    avoided: Set<Seq<char>>,
    source: Seq<char>,
    destination: Seq<char>,
    rank: Seq<Seq<char>>,
) -> Option<Seq<Seq<char>>> {
    if source == destination {
        Some(seq![source])
    } else {
        search_from(g, seq![seq![source]], seq![source], 0, rank, destination, avoided)
    }
}

/// Views of the paths of a layer.
pub open spec fn paths_view(paths: Seq<Vec<String>>) -> Seq<Seq<Seq<char>>> {
    paths.map_values(|p: Vec<String>| path_view(p@))
}

proof fn lemma_ranked_found(
    st: SearchState,
    path: Seq<Seq<char>>,
    ns: Seq<Seq<char>>,
    rank: Seq<Seq<char>>,
    j: int,
    destination: Seq<char>,
    avoided: Set<Seq<char>>,
)
    requires
        st.0 is Some,
    ensures
        ranked_pass(st, path, ns, rank, j, destination, avoided) == st,
    decreases j,
{
    if j > 0 {
        lemma_ranked_found(st, path, ns, rank, j - 1, destination, avoided);
    }
}

proof fn lemma_ranked_no_neighbours(
    st: SearchState,
    path: Seq<Seq<char>>,
    ns: Seq<Seq<char>>,
    rank: Seq<Seq<char>>,
    j: int,
    destination: Seq<char>,
    avoided: Set<Seq<char>>,
)
    requires
        ns.len() == 0,
    ensures
        ranked_pass(st, path, ns, rank, j, destination, avoided) == st,
    decreases j,
{
    if j > 0 {
        lemma_ranked_no_neighbours(st, path, ns, rank, j - 1, destination, avoided);
    }
}

proof fn lemma_ranked_keeps(
    st: SearchState,
    path: Seq<Seq<char>>,
    ns: Seq<Seq<char>>,
    rank: Seq<Seq<char>>,
    j: int,
    m: int,
    destination: Seq<char>,
    avoided: Set<Seq<char>>,
)
    requires
        0 <= j <= m,
        ranked_pass(st, path, ns, rank, j, destination, avoided).0 is Some,
    ensures
        ranked_pass(st, path, ns, rank, m, destination, avoided) == ranked_pass(st, path, ns, rank, j, destination, avoided),
    decreases m,
{
    if m > j {
        lemma_ranked_keeps(st, path, ns, rank, j, m - 1, destination, avoided);
    }
}

proof fn lemma_plain_found(
    st: SearchState,
    path: Seq<Seq<char>>,
    ns: Seq<Seq<char>>,
    j: int,
    destination: Seq<char>,
    avoided: Set<Seq<char>>,
)
    requires
        st.0 is Some,
    ensures
        plain_pass(st, path, ns, j, destination, avoided) == st,
    decreases j,
{
    if j > 0 {
        lemma_plain_found(st, path, ns, j - 1, destination, avoided);
    }
}

proof fn lemma_plain_keeps(
    st: SearchState,
    path: Seq<Seq<char>>,
    ns: Seq<Seq<char>>,
    j: int,
    m: int,
    destination: Seq<char>,
    avoided: Set<Seq<char>>,
)
    requires
        0 <= j <= m,
        plain_pass(st, path, ns, j, destination, avoided).0 is Some,
    ensures
        plain_pass(st, path, ns, m, destination, avoided) == plain_pass(st, path, ns, j, destination, avoided),
    decreases m,
{
    if m > j {
        lemma_plain_keeps(st, path, ns, j, m - 1, destination, avoided);
    }
}

proof fn lemma_layer_keeps(
    g: RelayLinks,
    st: SearchState,
    frontier: Seq<Seq<Seq<char>>>,
    i: int,
    m: int,
    rank: Seq<Seq<char>>,
    destination: Seq<char>,
    avoided: Set<Seq<char>>,
)
    requires
        0 <= i <= m,
        layer_pass(g, st, frontier, i, rank, destination, avoided).0 is Some,
    ensures
        layer_pass(g, st, frontier, m, rank, destination, avoided) == layer_pass(g, st, frontier, i, rank, destination, avoided),
    decreases m,
{
    if m > i {
        lemma_layer_keeps(g, st, frontier, i, m - 1, rank, destination, avoided);
        let prev = layer_pass(g, st, frontier, m - 1, rank, destination, avoided);
        let path = frontier[m - 1];
        let ns = g.neighbor_seq(path.last());
        lemma_ranked_found(prev, path, ns, rank, rank.len() as int, destination, avoided);
        lemma_plain_found(prev, path, ns, ns.len() as int, destination, avoided);
    }
}

/// A route found part-way through a layer is the route the search returns.
proof fn lemma_found_in_layer(
    g: RelayLinks,
    frontier: Seq<Seq<Seq<char>>>,
    visited: Seq<Seq<char>>,
    k: nat,
    i: int,
    rank: Seq<Seq<char>>,
    destination: Seq<char>,
    avoided: Set<Seq<char>>,
)
    requires
        k < g.hop_cap(),
        0 < i <= frontier.len(),
        layer_pass(g, (None, visited, Seq::empty()), frontier, i, rank, destination, avoided).0 is Some,
    ensures
        search_from(g, frontier, visited, k, rank, destination, avoided) == layer_pass(
            g,
            (None, visited, Seq::empty()),
            frontier,
            i,
            rank,
            destination,
            avoided,
        ).0,
{
    lemma_layer_keeps(g, (None, visited, Seq::empty()), frontier, i, frontier.len() as int, rank, destination, avoided);
}

/// Is `p` one of the avoided peers.
pub open spec fn avoids(avoided: Set<Seq<char>>, p: Seq<char>) -> bool {
    avoided.contains(p)
}

/// Peers outside `reached` and not avoided that are linked from some peer of `from`.
pub open spec fn frontier_step(
    g: RelayLinks,
    avoided: Set<Seq<char>>,
    reached: Set<Seq<char>>,
    from: Set<Seq<char>>,
) -> Set<Seq<char>> {
    Set::new(
        |w: Seq<char>|
            !avoids(avoided, w) && !reached.contains(w) && exists|u: Seq<char>| from.contains(u) && #[trigger] g.linked(u, w),
    )
}

/// Peers reachable from `source` in at most `k` hops without entering an avoided peer.
pub open spec fn reach(g: RelayLinks, avoided: Set<Seq<char>>, source: Seq<char>, k: nat) -> Set<Seq<char>>
    decreases k,
{
    if k == 0 {
        Set::empty().insert(source)
    } else {
        let before = reach(g, avoided, source, (k - 1) as nat);
        before.union(frontier_step(g, avoided, before, before))
    }
}

/// Peers first reached at exactly `k` hops.
pub open spec fn layer(g: RelayLinks, avoided: Set<Seq<char>>, source: Seq<char>, k: nat) -> Set<Seq<char>> {
    if k == 0 {
        reach(g, avoided, source, 0)
    } else {
        reach(g, avoided, source, k).difference(reach(g, avoided, source, (k - 1) as nat))
    }
}

/// The hop into position `t` of `p` follows a link.
pub open spec fn hop_linked(g: RelayLinks, p: Seq<String>, t: int) -> bool {
    g.linked(p[t - 1]@, p[t]@)
}

/// A route from `source` along links, through no avoided peer, visiting no peer twice.
pub open spec fn route_ok(g: RelayLinks, avoided: Set<Seq<char>>, source: Seq<char>, p: Seq<String>) -> bool {
    &&& p.len() >= 1
    &&& p[0]@ == source
    &&& forall|t: int| 0 < t < p.len() ==> #[trigger] hop_linked(g, p, t)
    &&& forall|t: int| 0 <= t < p.len() ==> !avoids(avoided, #[trigger] p[t]@)
    &&& unique_strings(p)
}

/// A walk from `source` along links through no avoided peer; peers may repeat.
pub open spec fn walk_ok(g: RelayLinks, avoided: Set<Seq<char>>, source: Seq<char>, p: Seq<Seq<char>>) -> bool {
    &&& p.len() >= 1
    &&& p[0] == source
    &&& forall|t: int| 0 < t < p.len() ==> #[trigger] g.linked(p[t - 1], p[t])
    &&& forall|t: int| 0 <= t < p.len() ==> !avoids(avoided, #[trigger] p[t])
}

/// The peers at the ends of the given paths.
pub open spec fn path_ends(paths: Seq<Vec<String>>) -> Set<Seq<char>> {
    Set::new(|w: Seq<char>| exists|j: int| 0 <= j < paths.len() && #[trigger] paths[j]@.last()@ == w)
}

/// Reaching within `k` hops implies reaching within any larger bound.
pub proof fn lemma_reach_grows(g: RelayLinks, avoided: Set<Seq<char>>, source: Seq<char>, k: nat, m: nat)
    requires
        k <= m,
    ensures
        reach(g, avoided, source, k).subset_of(reach(g, avoided, source, m)),
    decreases m - k,
{
    if k < m {
        lemma_reach_grows(g, avoided, source, k, (m - 1) as nat);
    }
}

/// Once a hop adds nothing, no later hop does.
pub proof fn lemma_reach_stable(g: RelayLinks, avoided: Set<Seq<char>>, source: Seq<char>, k: nat, m: nat)
    requires
        k <= m,
        reach(g, avoided, source, k + 1) == reach(g, avoided, source, k),
    ensures
        reach(g, avoided, source, m) == reach(g, avoided, source, k),
    decreases m - k,
{
    if k < m {
        lemma_reach_stable(g, avoided, source, k, (m - 1) as nat);
        assert(reach(g, avoided, source, m) == reach(g, avoided, source, ((m - 1) as nat) + 1));
    }
}

/// The last peer of a walk of `n` hops is reachable within `n` hops.
pub proof fn lemma_walk_in_reach(g: RelayLinks, avoided: Set<Seq<char>>, source: Seq<char>, p: Seq<Seq<char>>)
    requires
        walk_ok(g, avoided, source, p),
    ensures
        reach(g, avoided, source, (p.len() - 1) as nat).contains(p.last()),
    decreases p.len(),
{
    if p.len() > 1 {
        let q = p.drop_last();
        assert(walk_ok(g, avoided, source, q)) by {
            assert forall|t: int| 0 < t < q.len() implies #[trigger] g.linked(q[t - 1], q[t]) by {
                assert(g.linked(p[t - 1], p[t]));
            }
            assert forall|t: int| 0 <= t < q.len() implies !avoids(avoided, #[trigger] q[t]) by {
                assert(!avoids(avoided, p[t]));
            }
        }
        lemma_walk_in_reach(g, avoided, source, q);
        let k = (q.len() - 1) as nat;
        let before = reach(g, avoided, source, k);
        assert(g.linked(p[p.len() - 2], p[p.len() - 1]));
        assert(!avoids(avoided, p[p.len() - 1]));
        if !before.contains(p.last()) {
            assert(frontier_step(g, avoided, before, before).contains(p.last()));
        }
        assert(reach(g, avoided, source, (p.len() - 1) as nat) == before.union(frontier_step(g, avoided, before, before)));
    }
}

/// Given the peers first reached at `k` hops, the peers they link to that are
/// new and not avoided are exactly those first reached at `k + 1` hops.
proof fn lemma_next_layer(g: RelayLinks, avoided: Set<Seq<char>>, source: Seq<char>, k: nat)
    requires
        !avoids(avoided, source),
    ensures
        frontier_step(g, avoided, reach(g, avoided, source, k), layer(g, avoided, source, k)) == layer(
            g,
            avoided,
            source,
            k + 1,
        ),
        reach(g, avoided, source, k + 1) == reach(g, avoided, source, k).union(layer(g, avoided, source, k + 1)),
{
    let r = reach(g, avoided, source, k);
    let l = layer(g, avoided, source, k);
    let a = frontier_step(g, avoided, r, l);
    let b = layer(g, avoided, source, k + 1);
    assert(reach(g, avoided, source, k + 1) == r.union(frontier_step(g, avoided, r, r)));
    assert forall|w: Seq<char>| a.contains(w) implies b.contains(w) by {
        let u = choose|u: Seq<char>| l.contains(u) && #[trigger] g.linked(u, w);
        assert(r.contains(u));
        assert(frontier_step(g, avoided, r, r).contains(w));
    }
    assert forall|w: Seq<char>| b.contains(w) implies a.contains(w) by {
        assert(frontier_step(g, avoided, r, r).contains(w));
        let u = choose|u: Seq<char>| r.contains(u) && #[trigger] g.linked(u, w);
        if k > 0 {
            let before = reach(g, avoided, source, (k - 1) as nat);
            if before.contains(u) {
                assert(frontier_step(g, avoided, before, before).contains(w) || before.contains(w));
                assert(r.contains(w));
            }
            assert(l.contains(u));
        } else {
            assert(l.contains(u));
        }
    }
    assert(a =~= b);
    assert(reach(g, avoided, source, k + 1) =~= r.union(b));
}

/// Add `to` to the link list of `from`, keeping every list free of repeats.
fn link_one(links: &mut KeyedList<Vec<String>>, from: &str, to: &str)
    requires
        old(links).wf(),
        old(links).has(from@),
        forall|k: Seq<char>| #[trigger] old(links).has(k) ==> unique_strings(old(links).at(k)@),
    ensures
        final(links).wf(),
        forall|k: Seq<char>| #[trigger] final(links).has(k) == old(links).has(k),
        forall|k: Seq<char>| #[trigger] final(links).has(k) ==> unique_strings(final(links).at(k)@),
        forall|k: Seq<char>| k != from@ && old(links).has(k) ==> #[trigger] final(links).at(k) == old(links).at(k),
        peers_view(final(links).at(from@)@) == peers_view(old(links).at(from@)@).insert(to@),
{
    let ghost before = *links;
    let mut v: Vec<String> = match links.get(from) {
        Some(ns) => ns.clone(),
        None => Vec::new(),
    };
    assert(v@ == before.at(from@)@);
    if !contains_string(&v, to) {
        let ghost old_v = v@;
        v.push(String::from_str(to));
        proof {
            assert(v@ == old_v.push(v@[old_v.len() as int]));
            assert forall|i: int, j: int| 0 <= i < v@.len() && 0 <= j < v@.len() && i != j implies (
            #[trigger] v@[i])@ != (#[trigger] v@[j])@ by {
                if i == old_v.len() {
                    assert(old_v.map_values(|p: String| p@)[j] == old_v[j]@);
                } else if j == old_v.len() {
                    assert(old_v.map_values(|p: String| p@)[i] == old_v[i]@);
                }
            }
            assert(v@.map_values(|p: String| p@) =~= old_v.map_values(|p: String| p@).push(to@));
            old_v.map_values(|p: String| p@).lemma_push_to_set_commute(to@);
            assert(peers_view(v@) =~= peers_view(old_v).insert(to@));
        }
    } else {
        assert(peers_view(v@) =~= peers_view(before.at(from@)@).insert(to@));
    }
    let ghost nv = v@;
    links.upsert(String::from_str(from), v);
    proof {
        assert forall|k: Seq<char>| #[trigger] links.has(k) == before.has(k) by {
            assert(links.view_map().dom().contains(k) == links.has(k));
            assert(before.view_map().dom().contains(k) == before.has(k));
        }
        assert forall|k: Seq<char>| k != from@ && before.has(k) implies #[trigger] links.at(k) == before.at(k) by {
            assert(links.view_map().dom().contains(k));
            assert(links.view_map()[k] == links.at(k));
            assert(before.view_map().dom().contains(k));
            assert(before.view_map()[k] == before.at(k));
        }
        assert(links.view_map().dom().contains(from@));
        assert(links.view_map()[from@] == links.at(from@));
        assert(links.at(from@)@ == nv);
        assert forall|k: Seq<char>| #[trigger] links.has(k) implies unique_strings(links.at(k)@) by {
            if k != from@ {
                assert(before.has(k));
                assert(links.at(k) == before.at(k));
            }
        }
    }
}

/// Result of a local reroute after relay failure.
#[derive(Debug, PartialEq, Eq)]
pub struct FailoverDecision {
    /// Original route before the failure.
    pub previous: RelayRoute,
    /// Replacement route that avoids the failed peer.
    pub replacement: RelayRoute,
    /// Failed peer that triggered failover.
    pub failed_peer: String,
    /// Simulated convergence time for the deterministic harness.
    pub convergence_ms: u64,
}

impl FailoverDecision {
    /// Convergence must be within three seconds.
    pub fn converged_within_phase2_gate(&self) -> (b: bool)
        ensures
            b == (self.convergence_ms <= 3_000),
    {
        self.convergence_ms <= 3_000
    }
}

impl Default for RelayLinks {
    fn default() -> (r: Self)
        ensures
            r.hop_cap() == MAX_RELAY_HOPS,
            r.fanout_cap() == DEFAULT_MAX_FANOUT,
            forall|p: Seq<char>| !r.known(p),
    {
        RelayLinks::new(MAX_RELAY_HOPS, DEFAULT_MAX_FANOUT)
    }
}

/// Reroute away from a failed relay: a fewest-hop route between the previous
/// route's endpoints that avoids the failed peer.
pub fn reroute_after_failure(
    topology: &RelayLinks,
    previous: RelayRoute,
    failed_peer: &str,
    convergence_ms: u64,
    rank_order: &Vec<String>,
) -> (r: Result<FailoverDecision, TopologyError>)
    ensures
        reroute_outcome(*topology, previous, failed_peer@, convergence_ms, r),
        r matches Ok(d) ==> ranked_search(
            *topology,
            set![failed_peer@],
            previous.path@[0]@,
            previous.path@.last()@,
            path_view(rank_order@),
        ) == Some(path_view(d.replacement.path@)),
{
    let (source, destination) = match route_endpoints(&previous) {
        Ok(ends) => ends,
        Err(e) => {
            return Err(e);
        },
    };
    let mut avoided: Vec<String> = Vec::new();
    avoided.push(String::from_str(failed_peer));
    let ghost av = peers_view(avoided@);
    proof {
        assert(avoided@.map_values(|p: String| p@) =~= seq![failed_peer@]);
        assert forall|w: Seq<char>| av.contains(w) == set![failed_peer@].contains(w) by {
            if w == failed_peer@ {
                assert(avoided@.map_values(|p: String| p@)[0] == w);
            }
        }
        assert(av =~= set![failed_peer@]);
    }
    let replacement = match topology.route_avoiding(source.as_str(), destination.as_str(), &avoided, rank_order) {
        Ok(route) => route,
        Err(e) => {
            return Err(e);
        },
    };
    proof {
        assert forall|t: int| 0 <= t < replacement.path@.len() implies path_view(replacement.path@)[t] != failed_peer@ by {
            assert(!avoids(av, replacement.path@[t]@));
        }
        assert(!path_view(replacement.path@).contains(failed_peer@));
    }
    Ok(FailoverDecision { previous, replacement, failed_peer: String::from_str(failed_peer), convergence_ms })
}

/// Routing never misses a shorter route: every walk from `source` to
/// `destination` through no avoided peer has at least as many hops as a route
/// that meets `route_avoiding`'s guarantee.
pub proof fn law_route_is_shortest(
    g: RelayLinks,
    avoided: Set<Seq<char>>,
    source: Seq<char>,
    route: Seq<String>,
    walk: Seq<Seq<char>>,
)
    requires
        route_ok(g, avoided, source, route),
        route.len() >= 2 ==> !reach(g, avoided, source, (route.len() - 2) as nat).contains(route.last()@),
        walk_ok(g, avoided, source, walk),
        walk.last() == route.last()@,
    ensures
        walk.len() >= route.len(),
{
    lemma_walk_in_reach(g, avoided, source, walk);
    if walk.len() < route.len() {
        lemma_reach_grows(g, avoided, source, (walk.len() - 1) as nat, (route.len() - 2) as nat);
    }
}

/// When routing finds nothing, no walk from `source` to `destination` through
/// no avoided peer fits within the hop cap.
pub proof fn law_no_route_means_no_short_walk(
    g: RelayLinks,
    avoided: Set<Seq<char>>,
    source: Seq<char>,
    destination: Seq<char>,
    walk: Seq<Seq<char>>,
)
    requires
        !reach(g, avoided, source, g.hop_cap()).contains(destination),
        walk_ok(g, avoided, source, walk),
        walk.last() == destination,
    ensures
        walk.len() - 1 > g.hop_cap(),
{
    lemma_walk_in_reach(g, avoided, source, walk);
    if walk.len() - 1 <= g.hop_cap() {
        lemma_reach_grows(g, avoided, source, (walk.len() - 1) as nat, g.hop_cap());
    }
}

/// Source and destination of a route to repair, or `NoRoute` for an empty one.
pub fn route_endpoints(previous: &RelayRoute) -> (r: Result<(String, String), TopologyError>)
    ensures
        previous.path@.len() == 0 ==> r == Err::<(String, String), TopologyError>(TopologyError::NoRoute),
        previous.path@.len() > 0 ==> r == Ok::<(String, String), TopologyError>(
            (previous.path@[0], previous.path@[previous.path@.len() - 1]),
        ),
{
    let n = previous.path.len();
    if n == 0 {
        return Err(TopologyError::NoRoute);
    }
    Ok((previous.path[0].clone(), previous.path[n - 1].clone()))
}

/// True when the hop count respects the cap.
pub fn hop_limit_ok(hops: usize) -> (b: bool)
    ensures
        b == (hops <= MAX_RELAY_HOPS),
{
    hops <= MAX_RELAY_HOPS
}

} // verus!
