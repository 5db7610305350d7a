//! Deterministic gossip convergence primitives for text/history sync.
use vstd::prelude::*;
use crate::digest::{sha256, sha256_of};
use crate::keyed::{KeyedList, key_index, lemma_key_index};
use crate::order::{
    bytes_lt, seq_lt, slice_eq, slice_lt, str_lt, lemma_bytes_lt_transitive,
    lemma_bytes_lt_trichotomy, lemma_lt_transitive, lemma_lt_trichotomy,
};
use crate::text::str_equal;

verus! {

/// Relay-gossiped author-log item. Payload stays ciphertext/content-blind.
#[derive(Debug, PartialEq, Eq)]
pub struct GossipItem {
    /// Author MLS leaf.
    pub author_leaf: u32,
    /// Author-log sequence.
    pub sequence: u64,
    /// Stable message id.
    pub message_id: String,
    /// Ciphertext hash; relays do not inspect plaintext.
    pub ciphertext_hash: [u8; 32],
}

impl Clone for GossipItem {
    fn clone(&self) -> (r: Self)
        ensures
            r == *self,
    {
        GossipItem {
            author_leaf: self.author_leaf,
            sequence: self.sequence,
            message_id: self.message_id.clone(),
            ciphertext_hash: self.ciphertext_hash,
        }
    }
}

/// What an item is, compared by value.
pub type ItemView = (u32, u64, Seq<char>, Seq<u8>);

pub open spec fn iview(i: GossipItem) -> ItemView {
    (i.author_leaf, i.sequence, i.message_id@, i.ciphertext_hash@)
}

/// Item order: author leaf, sequence, message id, then ciphertext hash.
pub open spec fn item_lt(a: GossipItem, b: GossipItem) -> bool {
    a.author_leaf < b.author_leaf || (a.author_leaf == b.author_leaf && (a.sequence < b.sequence || (
    a.sequence == b.sequence && (seq_lt(a.message_id@, b.message_id@) || (a.message_id@
        == b.message_id@ && bytes_lt(a.ciphertext_hash@, b.ciphertext_hash@))))))
}

proof fn lemma_item_lt_transitive(a: GossipItem, b: GossipItem, c: GossipItem)
    requires
        item_lt(a, b),
        item_lt(b, c),
    ensures
        item_lt(a, c),
{
    lemma_lt_trichotomy(a.message_id@, b.message_id@);
    lemma_lt_trichotomy(b.message_id@, c.message_id@);
    lemma_lt_trichotomy(a.message_id@, c.message_id@);
    if a.author_leaf == b.author_leaf && b.author_leaf == c.author_leaf && a.sequence == b.sequence
        && b.sequence == c.sequence {
        if seq_lt(a.message_id@, b.message_id@) && seq_lt(b.message_id@, c.message_id@) {
            lemma_lt_transitive(a.message_id@, b.message_id@, c.message_id@);
        }
        if a.message_id@ == b.message_id@ && b.message_id@ == c.message_id@ {
            lemma_bytes_lt_transitive(a.ciphertext_hash@, b.ciphertext_hash@, c.ciphertext_hash@);
        }
    }
}

proof fn lemma_item_lt_trichotomy(a: GossipItem, b: GossipItem)
    ensures
        iview(a) == iview(b) || item_lt(a, b) || item_lt(b, a),
        !(item_lt(a, b) && item_lt(b, a)),
        item_lt(a, b) ==> iview(a) != iview(b),
{
    lemma_lt_trichotomy(a.message_id@, b.message_id@);
    lemma_bytes_lt_trichotomy(a.ciphertext_hash@, b.ciphertext_hash@);
}

fn item_less(a: &GossipItem, b: &GossipItem) -> (r: bool)
    ensures
        r == item_lt(*a, *b),
{
    if a.author_leaf != b.author_leaf {
        return a.author_leaf < b.author_leaf;
    }
    if a.sequence != b.sequence {
        return a.sequence < b.sequence;
    }
    if str_lt(a.message_id.as_str(), b.message_id.as_str()) {
        return true;
    }
    if !str_equal(a.message_id.as_str(), b.message_id.as_str()) {
        return false;
    }
    slice_lt(&a.ciphertext_hash, &b.ciphertext_hash)
}

fn item_same(a: &GossipItem, b: &GossipItem) -> (r: bool)
    ensures
        r == (iview(*a) == iview(*b)),
{
    a.author_leaf == b.author_leaf && a.sequence == b.sequence && str_equal(
        a.message_id.as_str(),
        b.message_id.as_str(),
    ) && slice_eq(&a.ciphertext_hash, &b.ciphertext_hash)
}

impl GossipItem {
    /// Build a gossip item from ciphertext bytes.
    pub fn new(author_leaf: u32, sequence: u64, message_id: &str, ciphertext: &[u8]) -> (r: Self)
        ensures
            r.author_leaf == author_leaf,
            r.sequence == sequence,
            r.message_id@ == message_id@,
            r.ciphertext_hash@ == sha256_of(ciphertext@),
    {
        GossipItem {
            author_leaf,
            sequence,
            message_id: String::from_str(message_id),
            ciphertext_hash: sha256(ciphertext),
        }
    }
}

/// Items strictly increase in item order (hence hold no value twice).
pub open spec fn items_sorted(s: Seq<GossipItem>) -> bool {
    forall|i: int, j: int| 0 <= i < j < s.len() ==> item_lt(#[trigger] s[i], #[trigger] s[j])
}

/// Item values in order.
pub open spec fn views(s: Seq<GossipItem>) -> Seq<ItemView> {
    s.map_values(|i: GossipItem| iview(i))
}

/// Local gossip peer state.
#[derive(Debug)]
pub struct GossipNode {
    items: Vec<GossipItem>,
}

impl GossipNode {
    pub closed spec fn wf(&self) -> bool {
        items_sorted(self.items@)
    }

    /// Known items in item order.
    pub closed spec fn known(&self) -> Seq<GossipItem> {
        self.items@
    }

    /// Known item values as a set.
    pub open spec fn item_set(&self) -> Set<ItemView> {
        views(self.known()).to_set()
    }

    /// An empty node.
    pub fn new() -> (r: Self)
        ensures
            r.wf(),
            r.known().len() == 0,
    {
        GossipNode { items: Vec::new() }
    }

    /// Insert an item; returns whether its value was new.
    fn insert_item(&mut self, item: GossipItem) -> (added: bool)
        requires
            old(self).wf(),
        ensures
            final(self).wf(),
            added == !old(self).item_set().contains(iview(item)),
            final(self).item_set() == old(self).item_set().insert(iview(item)),
            final(self).known().len() == old(self).known().len() + (if added { 1int } else { 0int }),
    {
        let n = self.items.len();
        let mut i: usize = 0;
        while i < n && item_less(&self.items[i], &item)
            invariant
                n == self.items@.len(),
                i <= n,
                forall|j: int| 0 <= j < i ==> item_lt(#[trigger] self.items@[j], item),
            decreases n - i,
        {
            i = i + 1;
        }
        let ghost s = self.items@;
        proof {
            assert(views(s).len() == s.len());
        }
        if i < n && item_same(&self.items[i], &item) {
            proof {
                assert(views(s)[i as int] == iview(item));
                assert(views(s).to_set().contains(iview(item)));
                assert(views(s).to_set().insert(iview(item)) =~= views(s).to_set());
            }
            return false;
        }
        proof {
            if i < n {
                lemma_item_lt_trichotomy(s[i as int], item);
            }
            assert forall|j: int| i <= j < s.len() implies item_lt(item, #[trigger] s[j]) by {
                if j > i {
                    lemma_item_lt_transitive(item, s[i as int], s[j]);
                }
            }
            assert(!views(s).to_set().contains(iview(item))) by {
                if views(s).contains(iview(item)) {
                    let k = choose|k: int| 0 <= k < views(s).len() && views(s)[k] == iview(item);
                    assert(views(s)[k] == iview(s[k]));
                    lemma_item_lt_trichotomy(s[k], item);
                }
            }
        }
        self.items.insert(i, item);
        proof {
            let t = self.items@;
            assert(t =~= s.insert(i as int, item));
            assert forall|a: int, b: int| 0 <= a < b < t.len() implies item_lt(#[trigger] t[a], #[trigger] t[b]) by {
                if b < i {
                    assert(t[a] == s[a] && t[b] == s[b]);
                } else if b == i {
                    assert(t[a] == s[a]);
                } else if a < i {
                    assert(t[a] == s[a] && t[b] == s[b - 1]);
                    lemma_item_lt_transitive(s[a], item, s[b - 1]);
                } else if a == i {
                    assert(t[b] == s[b - 1]);
                } else {
                    assert(t[a] == s[a - 1] && t[b] == s[b - 1]);
                }
            }
            assert(views(t).to_set() =~= views(s).to_set().insert(iview(item))) by {
                assert forall|v: ItemView| views(t).to_set().contains(v) == views(s).to_set().insert(iview(item)).contains(v) by {
                    if views(t).contains(v) {
                        let k = choose|k: int| 0 <= k < views(t).len() && views(t)[k] == v;
                        if k < i {
                            assert(views(s)[k] == v);
                        } else if k > i {
                            assert(views(s)[k - 1] == v);
                        }
                    }
                    if views(s).contains(v) {
                        let k = choose|k: int| 0 <= k < views(s).len() && views(s)[k] == v;
                        if k < i {
                            assert(views(t)[k] == v);
                        } else {
                            assert(views(t)[k + 1] == v);
                        }
                    }
                    if v == iview(item) {
                        assert(views(t)[i as int] == v);
                    }
                }
            }
        }
        true
    }

    /// Insert a content-blind item.
    pub fn insert(&mut self, item: GossipItem)
        requires
            old(self).wf(),
        ensures
            final(self).wf(),
            final(self).item_set() == old(self).item_set().insert(iview(item)),
    {
        self.insert_item(item);
    }

    /// Merge items from another peer; returns how many were new.
    pub fn merge(&mut self, items: Vec<GossipItem>) -> (inserted: usize)
        requires
            old(self).wf(),
        ensures
            final(self).wf(),
            final(self).item_set() == old(self).item_set().union(views(items@).to_set()),
            inserted == final(self).known().len() - old(self).known().len(),
    {
        let n = items.len();
        let mut count: usize = 0;
        let mut i: usize = 0;
        let mut rest = items;
        let ghost all = rest@;
        while i < n
            invariant
                n == all.len(),
                i <= n,
                rest@ == all.skip(i as int),
                self.wf(),
                self.item_set() == old(self).item_set().union(views(all.take(i as int)).to_set()),
                count == self.known().len() - old(self).known().len(),
                count <= i,
            decreases n - i,
        {
            let item = rest.remove(0);
            let added = self.insert_item(item);
            if added {
                count = count + 1;
            }
            proof {
                assert(all.take(i + 1) =~= all.take(i as int).push(item));
                assert(views(all.take(i + 1)) =~= views(all.take(i as int)).push(iview(item)));
                assert(views(all.take(i as int)).push(iview(item)) =~= views(all.take(i as int)) + seq![iview(item)]);
                Seq::lemma_to_set_insert_commutes(views(all.take(i as int)), iview(item));
                assert(self.item_set() =~= old(self).item_set().union(views(all.take(i + 1)).to_set()));
                assert(rest@ =~= all.skip(i + 1));
            }
            i = i + 1;
        }
        assert(all.take(n as int) =~= all);
        count
    }

    /// Snapshot known items.
    pub fn snapshot(&self) -> (r: Vec<GossipItem>)
        ensures
            r@ == self.known(),
    {
        let r = self.items.clone();
        assert(r@ =~= self.items@);
        r
    }

    /// Known item count.
    pub fn len(&self) -> (n: usize)
        ensures
            n == self.known().len(),
    {
        self.items.len()
    }

    /// True when no items are known.
    pub fn is_empty(&self) -> (b: bool)
        ensures
            b == (self.known().len() == 0),
    {
        self.items.len() == 0
    }
}

impl Default for GossipNode {
    fn default() -> (r: Self)
        ensures
            r.wf(),
            r.known().len() == 0,
    {
        Self::new()
    }
}

/// Sorted items hold distinct values, so their value set has one entry per item.
proof fn lemma_sorted_set_len(s: Seq<GossipItem>)
    requires
        items_sorted(s),
    ensures
        views(s).to_set().len() == s.len(),
        views(s).to_set().finite(),
{
    let v = views(s);
    assert(v.no_duplicates()) by {
        assert forall|i: int, j: int| 0 <= i < v.len() && 0 <= j < v.len() && i != j implies v[i] != v[j] by {
            if i < j {
                assert(item_lt(s[i], s[j]));
                lemma_item_lt_trichotomy(s[i], s[j]);
            } else {
                assert(item_lt(s[j], s[i]));
                lemma_item_lt_trichotomy(s[j], s[i]);
            }
        }
    }
    v.unique_seq_to_set();
    vstd::seq_lib::seq_to_set_is_finite(v);
}

/// Union of the item sets of the first `k` nodes.
pub open spec fn union_upto(nodes: Seq<(String, GossipNode)>, k: int) -> Set<ItemView>
    decreases k,
{
    if k <= 0 {
        Set::empty()
    } else {
        union_upto(nodes, k - 1).union(nodes[k - 1].1.item_set())
    }
}

/// Items a full round adds across nodes, when every node ends with `total` items.
pub open spec fn round_gain(nodes: Seq<(String, GossipNode)>, total: nat, k: int) -> int
    decreases k,
{
    if k <= 0 {
        0
    } else {
        round_gain(nodes, total, k - 1) + (total - nodes[k - 1].1.known().len())
    }
}

proof fn lemma_union_upto_contains(nodes: Seq<(String, GossipNode)>, k: int, j: int)
    requires
        0 <= j < k,
    ensures
        nodes[j].1.item_set().subset_of(union_upto(nodes, k)),
    decreases k,
{
    if j < k - 1 {
        lemma_union_upto_contains(nodes, k - 1, j);
    }
}

fn items_equal(a: &Vec<GossipItem>, b: &Vec<GossipItem>) -> (r: bool)
    ensures
        r == (views(a@) == views(b@)),
{
    assert(views(a@).len() == a@.len() && views(b@).len() == b@.len());
    if a.len() != b.len() {
        return false;
    }
    let n = a.len();
    let mut i: usize = 0;
    while i < n
        invariant
            n == a@.len(),
            n == b@.len(),
            i <= n,
            forall|j: int| 0 <= j < i ==> iview(a@[j]) == iview(b@[j]),
        decreases n - i,
    {
        if !item_same(&a[i], &b[i]) {
            assert(views(a@)[i as int] != views(b@)[i as int]);
            return false;
        }
        i = i + 1;
    }
    assert(views(a@) =~= views(b@));
    true
}

/// Deterministic full-fanout gossip mesh for headless harnesses.
#[derive(Debug)]
pub struct GossipMesh {
    nodes: KeyedList<GossipNode>,
}

impl GossipMesh {
    pub closed spec fn wf(&self) -> bool {
        &&& self.nodes.wf()
        &&& forall|i: int| 0 <= i < self.nodes.items@.len() ==> (#[trigger] self.nodes.items@[i]).1.wf()
    }

    /// Peers in the mesh.
    pub closed spec fn has_peer(&self, p: Seq<char>) -> bool {
        self.nodes.has(p)
    }

    /// Items a peer knows, in item order.
    pub closed spec fn peer_items(&self, p: Seq<char>) -> Seq<GossipItem> {
        self.nodes.at(p).known()
    }

    /// Node states in mesh order.
    pub closed spec fn node_seq(&self) -> Seq<(String, GossipNode)> {
        self.nodes.items@
    }

    /// Every peer holds the same items in the same order.
    pub open spec fn all_same(&self) -> bool {
        forall|p: Seq<char>, q: Seq<char>|
            self.has_peer(p) && self.has_peer(q) ==> views(#[trigger] self.peer_items(p)) == views(
                #[trigger] self.peer_items(q),
            )
    }

    /// Union of every peer's item values.
    pub open spec fn all_items(&self) -> Set<ItemView> {
        union_upto(self.node_seq(), self.node_seq().len() as int)
    }

    /// Create a mesh with named peers.
    pub fn new(peer_ids: &[&str]) -> (r: Self)
        ensures
            r.wf(),
            forall|p: Seq<char>| #[trigger] r.has_peer(p) <==> exists|i: int| 0 <= i < peer_ids@.len() && peer_ids@[i]@ == p,
            forall|p: Seq<char>| #[trigger] r.has_peer(p) ==> r.peer_items(p).len() == 0,
    {
        let mut nodes: KeyedList<GossipNode> = KeyedList::new();
        let n = peer_ids.len();
        let mut i: usize = 0;
        while i < n
            invariant
                n == peer_ids@.len(),
                i <= n,
                nodes.wf(),
                forall|k: int| 0 <= k < nodes.items@.len() ==> (#[trigger] nodes.items@[k]).1.wf(),
                forall|p: Seq<char>| #[trigger] nodes.has(p) <==> exists|k: int| 0 <= k < i && peer_ids@[k]@ == p,
                forall|k: int| 0 <= k < nodes.items@.len() ==> (#[trigger] nodes.items@[k]).1.known().len() == 0,
            decreases n - i,
        {
            let ghost before = nodes;
            let key = String::from_str(peer_ids[i]);
            let fresh = GossipNode::new();
            let ghost f = fresh;
            nodes.upsert(key, fresh);
            proof {
                assert forall|p: Seq<char>| #[trigger] nodes.has(p) <==> exists|k: int| 0 <= k < i + 1 && peer_ids@[k]@ == p by {
                    assert(nodes.view_map().contains_key(p) == before.view_map().insert(peer_ids@[i as int]@, f).contains_key(p));
                    if p == peer_ids@[i as int]@ {
                        assert(exists|k: int| 0 <= k < i + 1 && peer_ids@[k]@ == p) by {
                            assert(peer_ids@[i as int]@ == p);
                        }
                    }
                    if exists|k: int| 0 <= k < i + 1 && peer_ids@[k]@ == p {
                        let k = choose|k: int| 0 <= k < i + 1 && peer_ids@[k]@ == p;
                        if k < i {
                            assert(before.has(p));
                        }
                    }
                }
                assert forall|k: int| 0 <= k < nodes.items@.len() implies (#[trigger] nodes.items@[k]).1.wf() && nodes.items@[k].1.known().len() == 0 by {
                    let key_k = nodes.items@[k].0@;
                    lemma_key_index(nodes.items@, key_k);
                    assert(nodes.has(key_k));
                    assert(nodes.view_map()[key_k] == nodes.at(key_k));
                    if key_k != peer_ids@[i as int]@ {
                        assert(before.view_map().contains_key(key_k));
                        lemma_key_index(before.items@, key_k);
                        let j = key_index(before.items@, key_k);
                        assert(before.view_map()[key_k] == before.items@[j].1);
                    }
                }
            }
            i = i + 1;
        }
        let r = GossipMesh { nodes };
        proof {
            assert forall|p: Seq<char>| #[trigger] r.has_peer(p) implies r.peer_items(p).len() == 0 by {
                lemma_key_index(r.nodes.items@, p);
            }
        }
        r
    }

    /// Insert an item into a peer; unknown peers are ignored.
    pub fn insert(&mut self, peer_id: &str, item: GossipItem)
        requires
            old(self).wf(),
        ensures
            final(self).wf(),
            forall|p: Seq<char>| #[trigger] final(self).has_peer(p) == old(self).has_peer(p),
            old(self).has_peer(peer_id@) ==> views(final(self).peer_items(peer_id@)).to_set()
                == views(old(self).peer_items(peer_id@)).to_set().insert(iview(item)),
            forall|p: Seq<char>| p != peer_id@ && old(self).has_peer(p) ==> #[trigger] final(self).peer_items(p) == old(self).peer_items(p),
            !old(self).has_peer(peer_id@) ==> final(self).node_seq() == old(self).node_seq(),
    {
        match self.nodes.position(peer_id) {
            Some(i) => {
                let mut node = GossipNode { items: self.nodes.items[i].1.items.clone() };
                proof {
                    assert(node.items@ =~= self.nodes.items@[i as int].1.items@);
                }
                let ghost node_before = node;
                node.insert(item);
                let ghost node_after = node;
                let ghost before = self.nodes;
                self.nodes.set_value(i, node);
                proof {
                    assert(self.nodes.items@[i as int].0@ == peer_id@);
                    assert(self.nodes.items@[i as int].1 == node_after);
                    assert(before.items@[i as int].1.items@ == node_before.items@);
                    lemma_key_index(before.items@, peer_id@);
                    lemma_key_index(self.nodes.items@, peer_id@);
                    assert forall|p: Seq<char>| #[trigger] self.nodes.has(p) == before.has(p) by {
                        if self.nodes.has(p) {
                            let j = choose|j: int| 0 <= j < self.nodes.items@.len() && (#[trigger] self.nodes.items@[j]).0@ == p;
                            assert(before.items@[j].0@ == p);
                        }
                        if before.has(p) {
                            let j = choose|j: int| 0 <= j < before.items@.len() && (#[trigger] before.items@[j]).0@ == p;
                            assert(self.nodes.items@[j].0@ == p);
                        }
                    }
                    assert forall|p: Seq<char>| p != peer_id@ && before.has(p) implies #[trigger] self.nodes.at(p) == before.at(p) by {
                        lemma_key_index(before.items@, p);
                        lemma_key_index(self.nodes.items@, p);
                        let j = key_index(before.items@, p);
                        assert(self.nodes.items@[j].0@ == p);
                    }
                    assert forall|k: int| 0 <= k < self.nodes.items@.len() implies (#[trigger] self.nodes.items@[k]).1.wf() by {
                        if k != i {
                            assert(self.nodes.items@[k] == before.items@[k]);
                        }
                    }
                }
            },
            None => {},
        }
    }

    /// Run one deterministic gossip round by unioning all peer item sets.
    /// Afterwards every peer holds every item any peer held.
    pub fn round(&mut self) -> (added: usize)
        requires
            old(self).wf(),
            round_gain(
                old(self).node_seq(),
                old(self).all_items().len(),
                old(self).node_seq().len() as int,
            ) <= usize::MAX,
        ensures
            final(self).wf(),
            forall|p: Seq<char>| #[trigger] final(self).has_peer(p) == old(self).has_peer(p),
            forall|p: Seq<char>|
                #[trigger] final(self).has_peer(p) ==> views(final(self).peer_items(p)).to_set()
                    == old(self).all_items(),
            final(self).all_same(),
            added == round_gain(
                old(self).node_seq(),
                old(self).all_items().len(),
                old(self).node_seq().len() as int,
            ),
    {
        let ghost nodes0 = self.nodes.items@;
        let n = self.nodes.len();
        let mut u = GossipNode::new();
        let mut i: usize = 0;
        while i < n
            invariant
                n == self.nodes.items@.len(),
                self.nodes.items@ == nodes0,
                self.wf(),
                i <= n,
                u.wf(),
                u.item_set() == union_upto(nodes0, i as int),
            decreases n - i,
        {
            let snap = self.nodes.items[i].1.snapshot();
            u.merge(snap);
            proof {
                assert(views(snap@).to_set() == nodes0[i as int].1.item_set());
                assert(u.item_set() =~= union_upto(nodes0, i + 1));
            }
            i = i + 1;
        }
        proof {
            lemma_sorted_set_len(u.items@);
            lemma_nodes_within_union(nodes0);
        }
        let total = u.len();
        let mut sum: usize = 0;
        let mut j: usize = 0;
        let ghost keys0 = self.nodes.key_seq();
        while j < n
            invariant
                n == self.nodes.items@.len(),
                n == nodes0.len(),
                self.nodes.wf(),
                u.wf(),
                u.item_set() == union_upto(nodes0, n as int),
                total == u.items@.len(),
                total == union_upto(nodes0, n as int).len(),
                j <= n,
                forall|k: int| 0 <= k < n ==> (#[trigger] self.nodes.items@[k]).0 == nodes0[k].0,
                forall|k: int| 0 <= k < j ==> (#[trigger] self.nodes.items@[k]).1.items@ == u.items@,
                forall|k: int| j <= k < n ==> (#[trigger] self.nodes.items@[k]).1 == nodes0[k].1,
                forall|k: int| 0 <= k < n ==> (#[trigger] nodes0[k]).1.wf(),
                forall|k: int| 0 <= k < n ==> (#[trigger] nodes0[k]).1.known().len() <= total,
                sum == round_gain(nodes0, total as nat, j as int),
                round_gain(nodes0, total as nat, n as int) <= usize::MAX,
            decreases n - j,
        {
            let old_len = self.nodes.items[j].1.len();
            proof {
                lemma_round_gain_monotone(nodes0, total as nat, j as int + 1, n as int);
            }
            let gain = total - old_len;
            sum = sum + gain;
            let copy = GossipNode { items: u.items.clone() };
            proof {
                assert(copy.items@ =~= u.items@);
            }
            self.nodes.set_value(j, copy);
            j = j + 1;
        }
        proof {
            assert forall|p: Seq<char>| #[trigger] self.has_peer(p) == old(self).has_peer(p) by {
                if self.nodes.has(p) {
                    let k = choose|k: int| 0 <= k < self.nodes.items@.len() && (#[trigger] self.nodes.items@[k]).0@ == p;
                    assert(nodes0[k].0@ == p);
                }
                if old(self).nodes.has(p) {
                    let k = choose|k: int| 0 <= k < nodes0.len() && (#[trigger] nodes0[k]).0@ == p;
                    assert(self.nodes.items@[k].0@ == p);
                }
            }
            assert forall|p: Seq<char>| #[trigger] self.has_peer(p) implies self.peer_items(p) == u.items@ by {
                lemma_key_index(self.nodes.items@, p);
            }
            assert forall|k: int| 0 <= k < self.nodes.items@.len() implies (#[trigger] self.nodes.items@[k]).1.wf() by {}
        }
        sum
    }

    /// True when every node has the same item set.
    pub fn converged(&self) -> (b: bool)
        requires
            self.wf(),
        ensures
            b == self.all_same(),
    {
        let n = self.nodes.len();
        if n == 0 {
            proof {
                assert forall|p: Seq<char>, q: Seq<char>| self.has_peer(p) && self.has_peer(q) implies views(
                    #[trigger] self.peer_items(p),
                ) == views(#[trigger] self.peer_items(q)) by {
                    let k = choose|k: int| 0 <= k < self.nodes.items@.len() && (#[trigger] self.nodes.items@[k]).0@ == p;
                }
            }
            return true;
        }
        let first = &self.nodes.items[0].1.items;
        let mut i: usize = 1;
        while i < n
            invariant
                n == self.nodes.items@.len(),
                n > 0,
                self.wf(),
                1 <= i <= n,
                *first == self.nodes.items@[0].1.items,
                forall|k: int| 0 <= k < i ==> views((#[trigger] self.nodes.items@[k]).1.items@) == views(first@),
            decreases n - i,
        {
            if !items_equal(&self.nodes.items[i].1.items, first) {
                proof {
                    let p = self.nodes.items@[i as int].0@;
                    let q = self.nodes.items@[0].0@;
                    lemma_key_index(self.nodes.items@, p);
                    lemma_key_index(self.nodes.items@, q);
                    assert(self.has_peer(p) && self.has_peer(q));
                    assert(views(self.peer_items(p)) != views(self.peer_items(q)));
                }
                return false;
            }
            i = i + 1;
        }
        proof {
            assert forall|p: Seq<char>, q: Seq<char>| self.has_peer(p) && self.has_peer(q) implies views(
                #[trigger] self.peer_items(p),
            ) == views(#[trigger] self.peer_items(q)) by {
                lemma_key_index(self.nodes.items@, p);
                lemma_key_index(self.nodes.items@, q);
                let a = key_index(self.nodes.items@, p);
                let c = key_index(self.nodes.items@, q);
                assert(views(self.nodes.items@[a].1.items@) == views(first@));
                assert(views(self.nodes.items@[c].1.items@) == views(first@));
            }
        }
        true
    }

    /// Known count for a peer.
    pub fn known_count(&self, peer_id: &str) -> (r: Option<usize>)
        requires
            self.wf(),
        ensures
            match r {
                Some(n) => self.has_peer(peer_id@) && n == self.peer_items(peer_id@).len(),
                None => !self.has_peer(peer_id@),
            },
    {
        match self.nodes.get(peer_id) {
            Some(node) => Some(node.len()),
            None => None,
        }
    }

    /// Snapshot for a peer.
    pub fn snapshot(&self, peer_id: &str) -> (r: Vec<GossipItem>)
        requires
            self.wf(),
        ensures
            self.has_peer(peer_id@) ==> r@ == self.peer_items(peer_id@),
            !self.has_peer(peer_id@) ==> r@.len() == 0,
    {
        match self.nodes.get(peer_id) {
            Some(node) => node.snapshot(),
            None => Vec::new(),
        }
    }
}

proof fn lemma_round_gain_zero(nodes: Seq<(String, GossipNode)>, total: nat, k: int)
    requires
        0 <= k <= nodes.len(),
        forall|j: int| 0 <= j < nodes.len() ==> (#[trigger] nodes[j]).1.known().len() == total,
    ensures
        round_gain(nodes, total, k) == 0,
    decreases k,
{
    if k > 0 {
        lemma_round_gain_zero(nodes, total, k - 1);
    }
}

impl GossipMesh {
    /// Once every peer holds every item of the mesh (as after a round), a
    /// further round adds nothing.
    pub proof fn law_converged_round_gains_nothing(m: GossipMesh)
        requires
            m.wf(),
            forall|p: Seq<char>| #[trigger] m.has_peer(p) ==> views(m.peer_items(p)).to_set() == m.all_items(),
        ensures
            round_gain(m.node_seq(), m.all_items().len(), m.node_seq().len() as int) == 0,
    {
        let nodes = m.node_seq();
        let total = m.all_items().len();
        assert forall|j: int| 0 <= j < nodes.len() implies (#[trigger] nodes[j]).1.known().len() == total by {
            let p = nodes[j].0@;
            lemma_key_index(m.nodes.items@, p);
            assert(m.has_peer(p));
            assert(m.peer_items(p) == nodes[j].1.known());
            lemma_sorted_set_len(nodes[j].1.items@);
        }
        lemma_round_gain_zero(nodes, total, nodes.len() as int);
    }
}

proof fn lemma_nodes_within_union(nodes: Seq<(String, GossipNode)>)
    requires
        forall|k: int| 0 <= k < nodes.len() ==> (#[trigger] nodes[k]).1.wf(),
    ensures
        forall|k: int| 0 <= k < nodes.len() ==> (#[trigger] nodes[k]).1.known().len() <= union_upto(nodes, nodes.len() as int).len(),
        union_upto(nodes, nodes.len() as int).finite(),
{
    lemma_union_upto_finite(nodes, nodes.len() as int);
    assert forall|k: int| 0 <= k < nodes.len() implies (#[trigger] nodes[k]).1.known().len() <= union_upto(nodes, nodes.len() as int).len() by {
        lemma_sorted_set_len(nodes[k].1.items@);
        lemma_union_upto_contains(nodes, nodes.len() as int, k);
        vstd::set_lib::lemma_len_subset(nodes[k].1.item_set(), union_upto(nodes, nodes.len() as int));
    }
}

proof fn lemma_union_upto_finite(nodes: Seq<(String, GossipNode)>, k: int)
    requires
        forall|j: int| 0 <= j < nodes.len() ==> (#[trigger] nodes[j]).1.wf(),
        k <= nodes.len(),
    ensures
        union_upto(nodes, k).finite(),
    decreases k,
{
    if k > 0 {
        lemma_union_upto_finite(nodes, k - 1);
        lemma_sorted_set_len(nodes[k - 1].1.items@);
    }
}

proof fn lemma_round_gain_monotone(nodes: Seq<(String, GossipNode)>, total: nat, a: int, b: int)
    requires
        0 <= a <= b <= nodes.len(),
        forall|k: int| 0 <= k < nodes.len() ==> (#[trigger] nodes[k]).1.known().len() <= total,
    ensures
        round_gain(nodes, total, a) <= round_gain(nodes, total, b),
    decreases b - a,
{
    if a < b {
        lemma_round_gain_monotone(nodes, total, a, b - 1);
    }
}

} // verus!
