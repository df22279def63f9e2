//! Close lists: bounded lists of nodes, ranked against a reference key.
//!
//! Nodes that answer rank before nodes that stopped answering, however far
//! they are; among nodes of one kind the one closer to the reference key by
//! XOR distance ranks first. A full list takes a new node only in place of
//! its worst-ranked one, and only if the new node ranks before it.

use vstd::prelude::*;
use vstd::seq_lib::*;
use crate::addr::SocketAddr;
use crate::dht_node::DhtNode;
use crate::key::{PublicKey, distance, lemma_distance_injective};
use crate::packed_node::PackedNode;
use crate::time::Timestamp;

verus! {

/// Number of nodes that a close list holds unless told otherwise.
pub const BUCKET_DEFAULT_SIZE: usize = 8;

/// A list of nodes with distinct keys, of at most `capacity` nodes where a
/// capacity is set.
#[derive(Clone, Debug, PartialEq, Eq)]
pub struct Bucket {
    /// Number of nodes that the list can hold; `None` for a list without
    /// bound.
    pub capacity: Option<usize>,
    /// The nodes, in the ranking of the last insertion.
    pub nodes: Vec<DhtNode>,
}

/// At `now`, `a` ranks strictly before `b` with respect to `reference`: of a
/// node that is bad and one that is not, the one that is not; of two of one
/// kind, the one closer to `reference`.
pub open spec fn outranks(reference: PublicKey, a: DhtNode, b: DhtNode, now: Timestamp) -> bool {
    if a.is_bad(now) == b.is_bad(now) {
        distance(reference@, a.pk@) < distance(reference@, b.pk@)
    } else {
        !a.is_bad(now)
    }
}

/// Every node of `s` ranks strictly before every later one.
pub open spec fn ranked(s: Seq<DhtNode>, reference: PublicKey, now: Timestamp) -> bool {
    forall|i: int, j: int|
        0 <= i < j < s.len() ==> outranks(reference, #[trigger] s[i], #[trigger] s[j], now)
}

/// No two nodes of `s` have the same key.
pub open spec fn distinct_keys(s: Seq<DhtNode>) -> bool {
    forall|i: int, j: int| 0 <= i < j < s.len() ==> (#[trigger] s[i]).pk != (#[trigger] s[j]).pk
}

/// Some node of `s` has the key `pk`.
pub open spec fn holds_key(s: Seq<DhtNode>, pk: PublicKey) -> bool {
    exists|i: int| 0 <= i < s.len() && (#[trigger] s[i]).pk == pk
}

/// The place in `s` of a node with the key `pk`.
pub open spec fn index_of_key(s: Seq<DhtNode>, pk: PublicKey) -> int {
    choose|i: int| 0 <= i < s.len() && (#[trigger] s[i]).pk == pk
}

/// The node at `w` is the worst-ranked of `s`: every other node ranks before
/// it.
pub open spec fn is_worst(s: Seq<DhtNode>, w: int, reference: PublicKey, now: Timestamp) -> bool {
    &&& 0 <= w < s.len()
    &&& forall|j: int|
        0 <= j < s.len() && j != w ==> outranks(reference, #[trigger] s[j], s[w], now)
}

/// The place in `s` of its worst-ranked node.
pub open spec fn worst_index(s: Seq<DhtNode>, reference: PublicKey, now: Timestamp) -> int {
    choose|w: int| is_worst(s, w, reference, now)
}

/// A list of the nodes `s` has room for one more under `capacity`.
pub open spec fn has_room(s: Seq<DhtNode>, capacity: Option<usize>) -> bool {
    match capacity {
        Some(n) => s.len() < n,
        None => true,
    }
}

/// The nodes of `s` that stay when `candidate` is offered at `now`, or
/// `None` where the candidate is turned away.
///
/// A node with the candidate's key gives way to the candidate. Otherwise,
/// where there is room, all stay. Otherwise the worst-ranked node gives way
/// if the candidate ranks before it; if not, the candidate is turned away.
pub open spec fn retained(
    s: Seq<DhtNode>,
    capacity: Option<usize>,
    reference: PublicKey,
    candidate: DhtNode,
    now: Timestamp,
) -> Option<Seq<DhtNode>> {
    if holds_key(s, candidate.pk) {
        Some(s.remove(index_of_key(s, candidate.pk)))
    } else if has_room(s, capacity) {
        Some(s)
    } else if s.len() > 0 && outranks(
        reference,
        candidate,
        s[worst_index(s, reference, now)],
        now,
    ) {
        Some(s.remove(worst_index(s, reference, now)))
    } else {
        None
    }
}

/// Of two nodes with different keys one ranks before the other.
pub proof fn lemma_outranks_total(reference: PublicKey, a: DhtNode, b: DhtNode, now: Timestamp)
    requires
        a.pk != b.pk,
    ensures
        outranks(reference, a, b, now) || outranks(reference, b, a, now),
{
    if distance(reference@, a.pk@) == distance(reference@, b.pk@) {
        lemma_distance_injective(reference@, a.pk@, b.pk@);
        assert(a.pk.0@ =~= b.pk.0@);
        assert(a.pk.0 == b.pk.0);
    }
}

/// A list has at most one worst-ranked node.
pub proof fn lemma_worst_unique(
    s: Seq<DhtNode>,
    v: int,
    w: int,
    reference: PublicKey,
    now: Timestamp,
)
    requires
        is_worst(s, v, reference, now),
        is_worst(s, w, reference, now),
    ensures
        v == w,
{
    if v != w {
        assert(outranks(reference, s[v], s[w], now));
        assert(outranks(reference, s[w], s[v], now));
    }
}

/// A list of distinct keys that is not empty has a worst-ranked node, and
/// `worst_index` is its place.
pub proof fn lemma_worst_exists(s: Seq<DhtNode>, reference: PublicKey, now: Timestamp)
    requires
        distinct_keys(s),
        s.len() > 0,
    ensures
        is_worst(s, worst_index(s, reference, now), reference, now),
    decreases s.len(),
{
    let n = s.len() - 1;
    if n == 0 {
        assert(is_worst(s, 0, reference, now));
    } else {
        let init = s.drop_last();
        lemma_worst_exists(init, reference, now);
        let v = worst_index(init, reference, now);
        assert(init[v] == s[v]);
        lemma_outranks_total(reference, s[v], s[n], now);
        if outranks(reference, s[v], s[n], now) {
            assert forall|j: int| 0 <= j < s.len() && j != n implies outranks(
                reference,
                #[trigger] s[j],
                s[n],
                now,
            ) by {
                if j != v {
                    assert(outranks(reference, init[j], init[v], now));
                }
            }
            assert(is_worst(s, n, reference, now));
        } else {
            assert forall|j: int| 0 <= j < s.len() && j != v implies outranks(
                reference,
                #[trigger] s[j],
                s[v],
                now,
            ) by {
                if j != n {
                    assert(outranks(reference, init[j], init[v], now));
                }
            }
            assert(is_worst(s, v, reference, now));
        }
    }
}

/// A full list that lacks the candidate's key takes a candidate that is not
/// bad and lies closer to the reference key than the worst-ranked node, and
/// gives up exactly that node for it.
pub proof fn lemma_good_closer_candidate_replaces_worst(
    s: Seq<DhtNode>,
    capacity: Option<usize>,
    reference: PublicKey,
    candidate: DhtNode,
    now: Timestamp,
)
    requires
        distinct_keys(s),
        s.len() > 0,
        !has_room(s, capacity),
        !holds_key(s, candidate.pk),
        !candidate.is_bad(now),
        distance(reference@, candidate.pk@) < distance(
            reference@,
            s[worst_index(s, reference, now)].pk@,
        ),
    ensures
        is_worst(s, worst_index(s, reference, now), reference, now),
        retained(s, capacity, reference, candidate, now) == Some(
            s.remove(worst_index(s, reference, now)),
        ),
{
    lemma_worst_exists(s, reference, now);
}

/// A ranking holds its nodes in one order only: two ranked lists of the
/// same nodes are the same list.
pub proof fn lemma_ranking_is_unique(
    a: Seq<DhtNode>,
    b: Seq<DhtNode>,
    reference: PublicKey,
    now: Timestamp,
)
    requires
        ranked(a, reference, now),
        ranked(b, reference, now),
        a.to_multiset() == b.to_multiset(),
    ensures
        a == b,
    decreases a.len(),
{
    to_multiset_len(a);
    to_multiset_len(b);
    if a.len() == 0 {
        assert(a =~= b);
    } else {
        assert(a.contains(a[0]));
        assert(b.contains(b[0]));
        to_multiset_contains(a, a[0]);
        to_multiset_contains(b, a[0]);
        to_multiset_contains(a, b[0]);
        to_multiset_contains(b, b[0]);
        let k = choose|k: int| 0 <= k < b.len() && b[k] == a[0];
        let m = choose|m: int| 0 <= m < a.len() && a[m] == b[0];
        if k > 0 {
            assert(outranks(reference, b[0], b[k], now));
            if m > 0 {
                assert(outranks(reference, a[0], a[m], now));
            }
        }
        assert(a[0] == b[0]);
        let a_rest = a.remove(0);
        let b_rest = b.remove(0);
        to_multiset_remove(a, 0);
        to_multiset_remove(b, 0);
        assert forall|i: int, j: int| 0 <= i < j < a_rest.len() implies outranks(
            reference,
            #[trigger] a_rest[i],
            #[trigger] a_rest[j],
            now,
        ) by {
            assert(a_rest[i] == a[i + 1] && a_rest[j] == a[j + 1]);
        }
        assert forall|i: int, j: int| 0 <= i < j < b_rest.len() implies outranks(
            reference,
            #[trigger] b_rest[i],
            #[trigger] b_rest[j],
            now,
        ) by {
            assert(b_rest[i] == b[i + 1] && b_rest[j] == b[j + 1]);
        }
        lemma_ranking_is_unique(a_rest, b_rest, reference, now);
        assert(a =~= seq![a[0]] + a_rest);
        assert(b =~= seq![b[0]] + b_rest);
    }
}

/// Whether `a` ranks strictly before `b` at `now` with respect to
/// `reference`.
pub fn ranks_before(reference: &PublicKey, a: &DhtNode, b: &DhtNode, now: Timestamp) -> (r: bool)
    ensures
        r == outranks(*reference, *a, *b, now),
{
    let a_bad = a.is_bad(now);
    let b_bad = b.is_bad(now);
    if a_bad == b_bad {
        reference.is_closer(&a.pk, &b.pk)
    } else {
        !a_bad
    }
}

/// The nodes of `nodes` in ranking order at `now`.
fn ranked_copy(nodes: &Vec<DhtNode>, reference: &PublicKey, now: Timestamp) -> (out: Vec<DhtNode>)
    requires
        distinct_keys(nodes@),
    ensures
        out@.to_multiset() == nodes@.to_multiset(),
        out@.len() == nodes@.len(),
        ranked(out@, *reference, now),
        distinct_keys(out@),
{
    let mut out: Vec<DhtNode> = Vec::new();
    let ghost mut origin: Seq<int> = Seq::empty();
    let mut i: usize = 0;
    assert(nodes@.take(0) == out@);
    while i < nodes.len()
        invariant
            i <= nodes.len(),
            distinct_keys(nodes@),
            out@.len() == i,
            origin.len() == i,
            forall|k: int| 0 <= k < i ==> 0 <= #[trigger] origin[k] < i && out@[k] == nodes@[origin[k]],
            out@.to_multiset() == nodes@.take(i as int).to_multiset(),
            ranked(out@, *reference, now),
            distinct_keys(out@),
        decreases nodes.len() - i,
    {
        let x = nodes[i];
        let mut p: usize = 0;
        while p < out.len() && !ranks_before(reference, &x, &out[p], now)
            invariant
                p <= out.len(),
                forall|k: int| 0 <= k < p ==> !outranks(*reference, x, #[trigger] out@[k], now),
            decreases out.len() - p,
        {
            p += 1;
        }
        let ghost before = out@;
        out.insert(p, x);
        proof {
            let after = out@;
            assert forall|k: int| 0 <= k < before.len() implies (#[trigger] before[k]).pk != x.pk by {
                assert(before[k] == nodes@[origin[k]]);
            }
            assert forall|a: int, b: int| 0 <= a < b < after.len() implies outranks(
                *reference,
                #[trigger] after[a],
                #[trigger] after[b],
                now,
            ) && after[a].pk != after[b].pk by {
                if b == p {
                    assert(after[a] == before[a]);
                    lemma_outranks_total(*reference, before[a], x, now);
                } else if a == p {
                    assert(after[b] == before[b - 1]);
                    if b - 1 > p {
                        assert(outranks(*reference, before[p as int], before[b - 1], now));
                    }
                } else if a < p {
                    assert(after[a] == before[a]);
                    if b < p {
                        assert(after[b] == before[b]);
                    } else {
                        assert(after[b] == before[b - 1]);
                    }
                } else {
                    assert(after[a] == before[a - 1]);
                    assert(after[b] == before[b - 1]);
                }
            }
            to_multiset_insert(before, p as int, x);
            assert(nodes@.take(i + 1) == nodes@.take(i as int).push(x));
            to_multiset_build(nodes@.take(i as int), x);
            origin = origin.insert(p as int, i as int);
        }
        i += 1;
    }
    assert(nodes@.take(i as int) == nodes@);
    out
}

impl Bucket {
    /// The list holds no key twice and no more nodes than its capacity.
    pub open spec fn wf(&self) -> bool {
        &&& distinct_keys(self.nodes@)
        &&& self.capacity matches Some(n) ==> self.nodes@.len() <= n
    }

    /// An empty list for at most `capacity` nodes.
    pub fn new(capacity: usize) -> (bucket: Bucket)
        ensures
            bucket.wf(),
            bucket.capacity == Some(capacity),
            bucket.nodes@.len() == 0,
    {
        Bucket { capacity: Some(capacity), nodes: Vec::new() }
    }

    /// An empty list without bound.
    pub fn unbounded() -> (bucket: Bucket)
        ensures
            bucket.wf(),
            bucket.capacity is None,
            bucket.nodes@.len() == 0,
    {
        Bucket { capacity: None, nodes: Vec::new() }
    }

    /// Number of nodes in the list.
    pub fn len(&self) -> (n: usize)
        ensures
            n == self.nodes@.len(),
    {
        self.nodes.len()
    }

    /// Whether the list holds no node.
    pub fn is_empty(&self) -> (r: bool)
        ensures
            r == (self.nodes@.len() == 0),
    {
        self.nodes.len() == 0
    }

    /// Whether the list has no room for one more node.
    pub fn is_full(&self) -> (r: bool)
        ensures
            r == !has_room(self.nodes@, self.capacity),
    {
        match self.capacity {
            Some(n) => self.nodes.len() >= n,
            None => false,
        }
    }

    /// The place of the node with the key `pk`, if the list holds one.
    pub fn find(&self, pk: &PublicKey) -> (r: Option<usize>)
        ensures
            r is Some == holds_key(self.nodes@, *pk),
            r matches Some(i) ==> i < self.nodes@.len() && self.nodes@[i as int].pk == *pk,
            r matches Some(i) ==> distinct_keys(self.nodes@) ==> i == index_of_key(
                self.nodes@,
                *pk,
            ),
    {
        let mut i: usize = 0;
        while i < self.nodes.len()
            invariant
                i <= self.nodes.len(),
                forall|k: int| 0 <= k < i ==> (#[trigger] self.nodes@[k]).pk != *pk,
            decreases self.nodes.len() - i,
        {
            if self.nodes[i].pk.same_as(pk) {
                proof {
                    let j = index_of_key(self.nodes@, *pk);
                    assert(self.nodes@[i as int].pk == *pk);
                    if distinct_keys(self.nodes@) && j != i {
                        assert(self.nodes@[j].pk == self.nodes@[i as int].pk);
                    }
                }
                return Some(i);
            }
            i += 1;
        }
        None
    }

    /// The place of the worst-ranked node at `now`, if the list holds any
    /// node.
    pub fn find_worst(&self, reference: &PublicKey, now: Timestamp) -> (r: Option<usize>)
        requires
            self.wf(),
        ensures
            r is Some == (self.nodes@.len() > 0),
            r matches Some(w) ==> is_worst(self.nodes@, w as int, *reference, now) && w
                == worst_index(self.nodes@, *reference, now),
    {
        if self.nodes.len() == 0 {
            return None;
        }
        let mut w: usize = 0;
        let mut i: usize = 1;
        while i < self.nodes.len()
            invariant
                1 <= i <= self.nodes.len(),
                w < i,
                distinct_keys(self.nodes@),
                forall|j: int|
                    0 <= j < i && j != w ==> outranks(
                        *reference,
                        #[trigger] self.nodes@[j],
                        self.nodes@[w as int],
                        now,
                    ),
            decreases self.nodes.len() - i,
        {
            if ranks_before(reference, &self.nodes[w], &self.nodes[i], now) {
                w = i;
            } else {
                proof {
                    lemma_outranks_total(
                        *reference,
                        self.nodes@[w as int],
                        self.nodes@[i as int],
                        now,
                    );
                }
            }
            i += 1;
        }
        proof {
            assert(is_worst(self.nodes@, w as int, *reference, now));
            lemma_worst_unique(
                self.nodes@,
                w as int,
                worst_index(self.nodes@, *reference, now),
                *reference,
                now,
            );
        }
        Some(w)
    }

    /// Offer `candidate` to the list at `now`, ranking against `reference`.
    ///
    /// A node with the candidate's key is replaced by the candidate. Failing
    /// that, the candidate is added where there is room; in a full list it
    /// takes the place of the worst-ranked node if it ranks before that
    /// node. In each of these cases the result is `true` and the list is
    /// left in ranking order at `now`. Otherwise the result is `false` and
    /// the list is as it was.
    pub fn try_insert(&mut self, reference: &PublicKey, candidate: DhtNode, now: Timestamp) -> (r:
        bool)
        requires
            old(self).wf(),
        ensures
            final(self).wf(),
            final(self).capacity == old(self).capacity,
            r == retained(old(self).nodes@, old(self).capacity, *reference, candidate, now)
                is Some,
            match retained(old(self).nodes@, old(self).capacity, *reference, candidate, now) {
                Some(kept) => {
                    &&& final(self).nodes@.to_multiset() == kept.push(candidate).to_multiset()
                    &&& ranked(final(self).nodes@, *reference, now)
                },
                None => final(self).nodes@ == old(self).nodes@,
            },
    {
        let ghost before = self.nodes@;
        match self.find(&candidate.pk) {
            Some(i) => {
                self.nodes.remove(i);
            },
            None => {
                if self.is_full() {
                    match self.find_worst(reference, now) {
                        Some(w) => {
                            if !ranks_before(reference, &candidate, &self.nodes[w], now) {
                                return false;
                            }
                            self.nodes.remove(w);
                        },
                        None => {
                            return false;
                        },
                    }
                }
            },
        }
        proof {
            let kept = self.nodes@;
            assert(retained(before, self.capacity, *reference, candidate, now) == Some(kept));
            assert forall|k: int| 0 <= k < kept.len() implies (#[trigger] kept[k]).pk
                != candidate.pk by {
                if holds_key(before, candidate.pk) {
                    let i = index_of_key(before, candidate.pk);
                    if k < i {
                        assert(kept[k] == before[k]);
                    } else {
                        assert(kept[k] == before[k + 1]);
                    }
                } else {
                    if kept.len() == before.len() {
                        assert(kept[k] == before[k]);
                    } else {
                        let w = worst_index(before, *reference, now);
                        if k < w {
                            assert(kept[k] == before[k]);
                        } else {
                            assert(kept[k] == before[k + 1]);
                        }
                    }
                }
            }
            lemma_remove_keeps_distinct(before, kept);
        }
        self.nodes.push(candidate);
        let ranked_nodes = ranked_copy(&self.nodes, reference, now);
        self.nodes = ranked_nodes;
        true
    }

    /// Offer the node `new_node`, heard of at `now`, to the list: the same
    /// as `try_insert` with the `DhtNode` that `DhtNode::new` makes of it.
    pub fn try_add(&mut self, base_pk: &PublicKey, new_node: &PackedNode, now: Timestamp) -> (r:
        bool)
        requires
            old(self).wf(),
        ensures
            final(self).wf(),
            final(self).capacity == old(self).capacity,
            r == retained(
                old(self).nodes@,
                old(self).capacity,
                *base_pk,
                DhtNode::spec_new(*new_node, now),
                now,
            ) is Some,
            match retained(
                old(self).nodes@,
                old(self).capacity,
                *base_pk,
                DhtNode::spec_new(*new_node, now),
                now,
            ) {
                Some(kept) => {
                    &&& final(self).nodes@.to_multiset() == kept.push(
                        DhtNode::spec_new(*new_node, now),
                    ).to_multiset()
                    &&& ranked(final(self).nodes@, *base_pk, now)
                },
                None => final(self).nodes@ == old(self).nodes@,
            },
    {
        let candidate = DhtNode::new(*new_node, now);
        self.try_insert(base_pk, candidate, now)
    }

    /// The nodes of the list that are not bad at `now`, in the order of the
    /// list.
    pub fn good_entries(&self, now: Timestamp) -> (good: Vec<DhtNode>)
        ensures
            good@ == self.nodes@.filter(|node: DhtNode| !node.is_bad(now)),
    {
        let ghost pred = |node: DhtNode| !node.is_bad(now);
        let mut good: Vec<DhtNode> = Vec::new();
        let mut i: usize = 0;
        assert(self.nodes@.take(0).filter(pred) == good@);
        while i < self.nodes.len()
            invariant
                i <= self.nodes.len(),
                pred == |node: DhtNode| !node.is_bad(now),
                good@ == self.nodes@.take(i as int).filter(pred),
            decreases self.nodes.len() - i,
        {
            let node = self.nodes[i];
            proof {
                assert(self.nodes@.take(i + 1) == self.nodes@.take(i as int).push(node));
                self.nodes@.take(i as int).lemma_filter_push(node, pred);
            }
            if !node.is_bad(now) {
                good.push(node);
            }
            i += 1;
        }
        assert(self.nodes@.take(i as int) == self.nodes@);
        good
    }

    /// For each node of the list that has one, the address that
    /// `get_socket_addr` gives, in the order of the list.
    pub fn to_addresses(&self, is_ipv6_enabled: bool) -> (addrs: Vec<SocketAddr>)
        ensures
            addrs@ == self.nodes@.filter_map(
                |node: DhtNode| node.spec_socket_addr(is_ipv6_enabled),
            ),
    {
        let ghost f = |node: DhtNode| node.spec_socket_addr(is_ipv6_enabled);
        let mut addrs: Vec<SocketAddr> = Vec::new();
        let mut i: usize = 0;
        assert(self.nodes@.take(0).filter_map(f) == addrs@);
        while i < self.nodes.len()
            invariant
                i <= self.nodes.len(),
                f == |node: DhtNode| node.spec_socket_addr(is_ipv6_enabled),
                addrs@ == self.nodes@.take(i as int).filter_map(f),
            decreases self.nodes.len() - i,
        {
            proof {
                self.nodes@.lemma_filter_map_take_succ(f, i as int);
            }
            if let Some(addr) = self.nodes[i].get_socket_addr(is_ipv6_enabled) {
                addrs.push(addr);
            }
            i += 1;
        }
        assert(self.nodes@.take(i as int) == self.nodes@);
        addrs
    }

    /// For each node of the list that has an address, the `PackedNode` that
    /// `to_packed_node` gives, in the order of the list.
    pub fn to_packed(&self, is_ipv6_enabled: bool) -> (packed: Vec<PackedNode>)
        ensures
            packed@ == packed_nodes(self.nodes@, is_ipv6_enabled),
    {
        let ghost f = |node: DhtNode| node.spec_packed_node(is_ipv6_enabled);
        let mut packed: Vec<PackedNode> = Vec::new();
        let mut i: usize = 0;
        assert(self.nodes@.take(0).filter_map(f) == packed@);
        while i < self.nodes.len()
            invariant
                i <= self.nodes.len(),
                f == |node: DhtNode| node.spec_packed_node(is_ipv6_enabled),
                packed@ == self.nodes@.take(i as int).filter_map(f),
            decreases self.nodes.len() - i,
        {
            proof {
                self.nodes@.lemma_filter_map_take_succ(f, i as int);
            }
            if let Some(node) = self.nodes[i].to_packed_node(is_ipv6_enabled) {
                packed.push(node);
            }
            i += 1;
        }
        assert(self.nodes@.take(i as int) == self.nodes@);
        packed
    }
}

/// The `PackedNode`s of the nodes of `s` that have an address under the
/// given mode, in the order of `s`.
pub open spec fn packed_nodes(s: Seq<DhtNode>, is_ipv6_enabled: bool) -> Seq<PackedNode> {
    s.filter_map(|node: DhtNode| node.spec_packed_node(is_ipv6_enabled))
}

/// Taking one node out of a list of distinct keys leaves distinct keys.
proof fn lemma_remove_keeps_distinct(before: Seq<DhtNode>, kept: Seq<DhtNode>)
    requires
        distinct_keys(before),
        kept == before || exists|i: int| 0 <= i < before.len() && kept == before.remove(i),
    ensures
        distinct_keys(kept),
{
    if kept != before {
        let i = choose|i: int| 0 <= i < before.len() && kept == before.remove(i);
        assert forall|a: int, b: int| 0 <= a < b < kept.len() implies (#[trigger] kept[a]).pk != (
        #[trigger] kept[b]).pk by {
            let a0 = if a < i { a } else { a + 1 };
            let b0 = if b < i { b } else { b + 1 };
            assert(kept[a] == before[a0]);
            assert(kept[b] == before[b0]);
        }
    }
}

} // verus!
