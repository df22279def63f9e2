//! A friend and the nodes through which it may be reached.
//!
//! For each friend the close nodes of its key are tracked, and on every
//! tick it is decided which nodes to ask for nodes close to the friend:
//! each node that was newly heard of, once; each close node whose last
//! request is a ping interval old; and one close node picked at random,
//! with a bias towards the closest. Sending is left to the caller.

use vstd::prelude::*;
use crate::addr::SocketAddr;
use crate::dht_node::DhtNode;
use crate::kbucket::{Bucket, BUCKET_DEFAULT_SIZE, packed_nodes};
use crate::key::PublicKey;
use crate::packed_node::PackedNode;
use crate::time::{Timestamp, at_least};

verus! {

/// Interval in seconds that is kept between requests to a random close
/// node, once `MAX_BOOTSTRAP_TIMES` of them have been made.
pub const NODES_REQ_INTERVAL: u64 = 60;

/// Number of requests to a random close node that are made without regard
/// to the time of the last one.
pub const MAX_BOOTSTRAP_TIMES: u32 = 3;

/// Hold friend related info.
#[derive(Clone, Debug)]
pub struct DhtFriend {
    /// Public key of the friend.
    pub pk: PublicKey,
    /// Close nodes of the friend.
    pub close_nodes: Bucket,
    /// Time of the last request sent to a random close node.
    pub last_nodes_req_time: Option<Timestamp>,
    /// Counter of the requests sent to a random close node.
    pub bootstrap_times: u32,
    /// Nodes that were heard of and not asked yet.
    pub bootstrap_nodes: Bucket,
}

/// The nodes to send a nodes request to, as one tick decides them.
#[derive(Clone, Debug, PartialEq, Eq)]
pub struct NodesRequests {
    /// The nodes that were waiting to be asked for the first time.
    pub bootstrap: Vec<PackedNode>,
    /// The close nodes whose ping is due, per address.
    pub close: Vec<PackedNode>,
    /// The close node picked at random, if one was picked.
    pub random: Option<PackedNode>,
}

/// The requests that are due to one node at `now`: one to its IPv4 address
/// and one to its IPv6 address, each if `ping_addr` hands it out.
pub open spec fn ping_requests(node: DhtNode, now: Timestamp) -> Seq<PackedNode> {
    let v4 = match node.assoc4.ping_target(now) {
        Some(addr) => seq![PackedNode { saddr: SocketAddr::V4(addr), pk: node.pk }],
        None => seq![],
    };
    let v6 = match node.assoc6.ping_target(now) {
        Some(addr) => seq![PackedNode { saddr: SocketAddr::V6(addr), pk: node.pk }],
        None => seq![],
    };
    v4 + v6
}

/// The node after `ping_addr` at `now` on both of its address families.
pub open spec fn pinged(node: DhtNode, now: Timestamp) -> DhtNode {
    DhtNode {
        assoc4: node.assoc4.after_ping(now),
        assoc6: node.assoc6.after_ping(now),
        pk: node.pk,
    }
}

/// The requests that are due at `now` to the nodes of `s`, in the order of
/// `s`.
pub open spec fn close_requests(s: Seq<DhtNode>, now: Timestamp) -> Seq<PackedNode>
    decreases s.len(),
{
    if s.len() == 0 {
        seq![]
    } else {
        close_requests(s.drop_last(), now) + ping_requests(s.last(), now)
    }
}

/// The nodes among which one is picked at random: the nodes of `s` that are
/// not bad at `now` and have an address under the given mode, in the order
/// of `s`.
pub open spec fn random_pool(s: Seq<DhtNode>, is_ipv6_enabled: bool, now: Timestamp) -> Seq<
    PackedNode,
> {
    packed_nodes(s.filter(|node: DhtNode| !node.is_bad(now)), is_ipv6_enabled)
}

/// The place that two random draws pick among `len` places: the first draw
/// picks a place evenly, and the second moves it towards the front by an
/// evenly picked number of places, at most to the front.
pub open spec fn weighted_index(len: nat, first_draw: nat, second_draw: nat) -> nat {
    let place = first_draw % len;
    if place == 0 {
        0
    } else {
        (place - second_draw % (place + 1)) as nat
    }
}

/// The place that two random draws pick among `len` places.
pub fn pick_weighted(len: usize, first_draw: usize, second_draw: usize) -> (place: usize)
    requires
        len > 0,
    ensures
        place == weighted_index(len as nat, first_draw as nat, second_draw as nat),
        place < len,
{
    let mut place: usize = first_draw % len;
    if place != 0 {
        place -= second_draw % (place + 1);
    }
    place
}

/// Number of the second draws below `seconds` that, together with the first
/// draw `first`, pick the front place among `len` places.
pub open spec fn front_picks_with(len: nat, first: nat, seconds: nat) -> nat
    decreases seconds,
{
    if seconds == 0 {
        0
    } else {
        let rest = front_picks_with(len, first, (seconds - 1) as nat);
        if weighted_index(len, first, (seconds - 1) as nat) == 0 {
            rest + 1
        } else {
            rest
        }
    }
}

/// Number of the pairs of a first draw below `firsts` and a second draw
/// below `seconds` that pick the front place among `len` places.
pub open spec fn front_picks(len: nat, firsts: nat, seconds: nat) -> nat
    decreases firsts,
{
    if firsts == 0 {
        0
    } else {
        front_picks(len, (firsts - 1) as nat, seconds) + front_picks_with(
            len,
            (firsts - 1) as nat,
            seconds,
        )
    }
}

/// A first draw that falls on the front place picks it whatever the second
/// draw is; from any other place exactly the second draws that move by the
/// whole way bring the pick to the front. No pick lies behind the place of
/// the first draw.
pub proof fn lemma_front_place_reached(len: nat, first_draw: nat, second_draw: nat)
    requires
        len > 0,
    ensures
        weighted_index(len, first_draw, second_draw) <= first_draw % len,
        first_draw % len == 0 ==> weighted_index(len, first_draw, second_draw) == 0,
        first_draw % len != 0 ==> (weighted_index(len, first_draw, second_draw) == 0
            <==> second_draw % (first_draw % len + 1) == first_draw % len),
{
}

/// Let the first draw run over `len` values in a row from zero and the
/// second over `seconds` values from zero, so that every place comes up
/// equally often as the first draw's place. Then of these `len * seconds`
/// pairs of draws at least `seconds` pick the front place, which is its even
/// share of one in `len`; and more than that where there is more than one
/// place and more than one second draw.
pub proof fn lemma_front_place_favoured(len: nat, seconds: nat)
    requires
        len > 0,
    ensures
        front_picks(len, len, seconds) >= seconds,
        len > 1 && seconds > 1 ==> front_picks(len, len, seconds) > seconds,
{
    lemma_front_picks_from_the_front(len, seconds);
    assert(front_picks(len, 1, seconds) == front_picks(len, 0, seconds) + front_picks_with(
        len,
        0,
        seconds,
    ));
    if len > 1 {
        assert(front_picks(len, 2, seconds) == front_picks(len, 1, seconds) + front_picks_with(
            len,
            1,
            seconds,
        ));
        if seconds > 1 {
            lemma_front_picks_from_the_second_place(len, seconds);
        }
        lemma_front_picks_grow(len, 2, len, seconds);
    }
}

/// With the first draw zero every second draw picks the front place.
proof fn lemma_front_picks_from_the_front(len: nat, seconds: nat)
    requires
        len > 0,
    ensures
        front_picks_with(len, 0, seconds) == seconds,
    decreases seconds,
{
    if seconds > 0 {
        lemma_front_picks_from_the_front(len, (seconds - 1) as nat);
    }
}

/// With the first draw one, among two or more second draws there is one
/// that picks the front place.
proof fn lemma_front_picks_from_the_second_place(len: nat, seconds: nat)
    requires
        len > 1,
        seconds > 1,
    ensures
        front_picks_with(len, 1, seconds) >= 1,
    decreases seconds,
{
    if seconds > 2 {
        lemma_front_picks_from_the_second_place(len, (seconds - 1) as nat);
    } else {
        assert(1nat % len == 1) by (nonlinear_arith)
            requires
                len > 1,
        ;
        assert(1nat % 2 == 1);
        assert(weighted_index(len, 1, 1) == 0);
        assert(front_picks_with(len, 1, 2) == front_picks_with(len, 1, 1) + 1);
    }
}

/// The count of the pairs that pick the front place does not shrink as more
/// first draws are counted.
proof fn lemma_front_picks_grow(len: nat, fewer: nat, firsts: nat, seconds: nat)
    requires
        fewer <= firsts,
    ensures
        front_picks(len, fewer, seconds) <= front_picks(len, firsts, seconds),
    decreases firsts,
{
    if fewer < firsts {
        lemma_front_picks_grow(len, fewer, (firsts - 1) as nat, seconds);
    }
}

impl DhtFriend {
    /// Both lists of the friend are well formed.
    pub open spec fn wf(&self) -> bool {
        self.close_nodes.wf() && self.bootstrap_nodes.wf()
    }

    /// No request goes to a random close node at `now`: the last one is less
    /// than `NODES_REQ_INTERVAL` seconds old and `MAX_BOOTSTRAP_TIMES` of
    /// them have been made.
    pub open spec fn random_request_held_back(&self, now: Timestamp) -> bool {
        &&& self.last_nodes_req_time matches Some(time)
        &&& !at_least(now, time, NODES_REQ_INTERVAL)
        &&& self.bootstrap_times >= MAX_BOOTSTRAP_TIMES
    }

    /// The close node that a tick at `now` picks with the two draws, if it
    /// picks one.
    pub open spec fn random_request(
        &self,
        is_ipv6_enabled: bool,
        now: Timestamp,
        first_draw: usize,
        second_draw: usize,
    ) -> Option<PackedNode> {
        let pool = random_pool(self.close_nodes.nodes@, is_ipv6_enabled, now);
        if self.random_request_held_back(now) || pool.len() == 0 {
            None
        } else {
            Some(pool[weighted_index(pool.len(), first_draw as nat, second_draw as nat) as int])
        }
    }

    /// Create new `DhtFriend` with empty lists: a close list of
    /// `BUCKET_DEFAULT_SIZE` nodes and a list without bound for the nodes
    /// that wait to be asked.
    pub fn new(pk: PublicKey) -> (friend: DhtFriend)
        ensures
            friend.wf(),
            friend.pk == pk,
            friend.close_nodes.capacity == Some(BUCKET_DEFAULT_SIZE),
            friend.close_nodes.nodes@.len() == 0,
            friend.bootstrap_nodes.capacity is None,
            friend.bootstrap_nodes.nodes@.len() == 0,
            friend.last_nodes_req_time is None,
            friend.bootstrap_times == 0,
    {
        DhtFriend {
            pk,
            close_nodes: Bucket::new(BUCKET_DEFAULT_SIZE),
            last_nodes_req_time: None,
            bootstrap_times: 0,
            bootstrap_nodes: Bucket::unbounded(),
        }
    }

    /// Take every node that waits to be asked off its list and return them
    /// as the nodes to send a nodes request to, in the order of the list: for
    /// each node its `PackedNode` under the given mode. The list is left
    /// empty, so no node is handed out twice.
    pub fn ping_bootstrap_nodes(&mut self, is_ipv6_enabled: bool) -> (requests: Vec<PackedNode>)
        ensures
            requests@ == packed_nodes(old(self).bootstrap_nodes.nodes@, is_ipv6_enabled),
            final(self).bootstrap_nodes.nodes@.len() == 0,
            final(self).bootstrap_nodes.capacity == old(self).bootstrap_nodes.capacity,
            final(self).pk == old(self).pk,
            final(self).close_nodes == old(self).close_nodes,
            final(self).last_nodes_req_time == old(self).last_nodes_req_time,
            final(self).bootstrap_times == old(self).bootstrap_times,
    {
        let mut bootstrap_nodes = Bucket {
            capacity: self.bootstrap_nodes.capacity,
            nodes: Vec::new(),
        };
        std::mem::swap(&mut bootstrap_nodes, &mut self.bootstrap_nodes);
        bootstrap_nodes.to_packed(is_ipv6_enabled)
    }

    /// Return the close nodes whose ping is due at `now`, per address and in
    /// the order of the close list, and record `now` as the time of the last
    /// request to each address returned. Nothing else changes.
    pub fn ping_and_get_close_nodes(&mut self, now: Timestamp) -> (requests: Vec<PackedNode>)
        ensures
            requests@ == close_requests(old(self).close_nodes.nodes@, now),
            final(self).close_nodes.nodes@ == old(self).close_nodes.nodes@.map_values(
                |node: DhtNode| pinged(node, now),
            ),
            final(self).close_nodes.capacity == old(self).close_nodes.capacity,
            final(self).pk == old(self).pk,
            final(self).bootstrap_nodes == old(self).bootstrap_nodes,
            final(self).last_nodes_req_time == old(self).last_nodes_req_time,
            final(self).bootstrap_times == old(self).bootstrap_times,
    {
        let ghost before = self.close_nodes.nodes@;
        let mut requests: Vec<PackedNode> = Vec::new();
        let mut i: usize = 0;
        assert(before.take(0) == Seq::<DhtNode>::empty());
        while i < self.close_nodes.nodes.len()
            invariant
                i <= before.len(),
                before == old(self).close_nodes.nodes@,
                self.close_nodes.nodes@.len() == before.len(),
                forall|k: int| 0 <= k < i ==> self.close_nodes.nodes@[k] == pinged(before[k], now),
                forall|k: int| i <= k < before.len() ==> self.close_nodes.nodes@[k] == before[k],
                requests@ == close_requests(before.take(i as int), now),
                self.close_nodes.capacity == old(self).close_nodes.capacity,
                self.pk == old(self).pk,
                self.bootstrap_nodes == old(self).bootstrap_nodes,
                self.last_nodes_req_time == old(self).last_nodes_req_time,
                self.bootstrap_times == old(self).bootstrap_times,
            decreases before.len() - i,
        {
            let mut node = self.close_nodes.nodes[i];
            if let Some(addr) = node.assoc4.ping_addr(now) {
                requests.push(PackedNode::new(SocketAddr::V4(addr), &node.pk));
            }
            if let Some(addr) = node.assoc6.ping_addr(now) {
                requests.push(PackedNode::new(SocketAddr::V6(addr), &node.pk));
            }
            self.close_nodes.nodes[i] = node;
            proof {
                assert(before.take(i + 1).drop_last() == before.take(i as int));
                assert(before.take(i + 1).last() == before[i as int]);
            }
            i += 1;
        }
        assert(before.take(i as int) == before);
        requests
    }

    /// Pick one close node at random to send a nodes request to, unless such
    /// requests are held back at `now`. The node is picked among the close
    /// nodes that are not bad and have an address, by `pick_weighted` with
    /// the two draws, which the caller draws evenly from all values. Where a
    /// node is picked the request is counted and `now` is recorded as its
    /// time; otherwise nothing changes.
    pub fn send_nodes_req_random(
        &mut self,
        is_ipv6_enabled: bool,
        now: Timestamp,
        first_draw: usize,
        second_draw: usize,
    ) -> (request: Option<PackedNode>)
        ensures
            request == old(self).random_request(is_ipv6_enabled, now, first_draw, second_draw),
            final(self).pk == old(self).pk,
            final(self).close_nodes == old(self).close_nodes,
            final(self).bootstrap_nodes == old(self).bootstrap_nodes,
            final(self).last_nodes_req_time == if request is Some {
                Some(now)
            } else {
                old(self).last_nodes_req_time
            },
            final(self).bootstrap_times == if request is Some && old(self).bootstrap_times
                < u32::MAX {
                old(self).bootstrap_times + 1
            } else {
                old(self).bootstrap_times as int
            },
    {
        let held_back = match self.last_nodes_req_time {
            Some(time) => !now.is_at_least(time, NODES_REQ_INTERVAL) && self.bootstrap_times
                >= MAX_BOOTSTRAP_TIMES,
            None => false,
        };
        if held_back {
            return None;
        }
        let good_nodes = Bucket { capacity: None, nodes: self.close_nodes.good_entries(now) };
        let pool = good_nodes.to_packed(is_ipv6_enabled);
        if pool.len() == 0 {
            return None;
        }
        let random_node = pool[pick_weighted(pool.len(), first_draw, second_draw)];
        if self.bootstrap_times < u32::MAX {
            self.bootstrap_times += 1;
        }
        self.last_nodes_req_time = Some(now);
        Some(random_node)
    }

    /// Decide at `now` which nodes to send a nodes request to: the nodes that
    /// wait to be asked for the first time, the close nodes whose ping is
    /// due, and one close node picked at random with the two draws. The
    /// three choices do not depend on one another.
    pub fn send_nodes_req_packets(
        &mut self,
        is_ipv6_enabled: bool,
        now: Timestamp,
        first_draw: usize,
        second_draw: usize,
    ) -> (requests: NodesRequests)
        ensures
            tick(
                *old(self),
                *final(self),
                requests,
                is_ipv6_enabled,
                now,
                first_draw,
                second_draw,
            ),
    {
        let bootstrap = self.ping_bootstrap_nodes(is_ipv6_enabled);
        let random = self.send_nodes_req_random(is_ipv6_enabled, now, first_draw, second_draw);
        let close = self.ping_and_get_close_nodes(now);
        NodesRequests { bootstrap, close, random }
    }

    /// Get the addresses of the close nodes of the friend, one for each
    /// node that has an address under the given mode. A friend may be
    /// reached at several addresses.
    pub fn get_addrs_of_clients(&self, is_ipv6_mode: bool) -> (addrs: Vec<SocketAddr>)
        ensures
            addrs@ == self.close_nodes.nodes@.filter_map(
                |node: DhtNode| node.spec_socket_addr(is_ipv6_mode),
            ),
    {
        self.close_nodes.to_addresses(is_ipv6_mode)
    }
}

/// One tick at `now` takes the friend from `pre` to `post` and decides the
/// requests `requests`.
pub open spec fn tick(
    pre: DhtFriend,
    post: DhtFriend,
    requests: NodesRequests,
    is_ipv6_enabled: bool,
    now: Timestamp,
    first_draw: usize,
    second_draw: usize,
) -> bool {
    &&& requests.bootstrap@ == packed_nodes(pre.bootstrap_nodes.nodes@, is_ipv6_enabled)
    &&& requests.close@ == close_requests(pre.close_nodes.nodes@, now)
    &&& requests.random == pre.random_request(is_ipv6_enabled, now, first_draw, second_draw)
    &&& post.pk == pre.pk
    &&& post.bootstrap_nodes.nodes@.len() == 0
    &&& post.bootstrap_nodes.capacity == pre.bootstrap_nodes.capacity
    &&& post.close_nodes.nodes@ == pre.close_nodes.nodes@.map_values(
        |node: DhtNode| pinged(node, now),
    )
    &&& post.close_nodes.capacity == pre.close_nodes.capacity
    &&& post.last_nodes_req_time == if requests.random is Some {
        Some(now)
    } else {
        pre.last_nodes_req_time
    }
    &&& post.bootstrap_times == if requests.random is Some && pre.bootstrap_times < u32::MAX {
        pre.bootstrap_times + 1
    } else {
        pre.bootstrap_times as int
    }
}

/// The nodes that wait to be asked are handed out once: the tick that
/// follows a tick hands out none of them and leaves their list empty.
pub proof fn lemma_bootstrap_nodes_handed_out_once(
    pre: DhtFriend,
    mid: DhtFriend,
    post: DhtFriend,
    first: NodesRequests,
    second: NodesRequests,
    is_ipv6_enabled: bool,
    now: Timestamp,
    later: Timestamp,
    draws: (usize, usize),
    later_draws: (usize, usize),
)
    requires
        tick(pre, mid, first, is_ipv6_enabled, now, draws.0, draws.1),
        tick(mid, post, second, is_ipv6_enabled, later, later_draws.0, later_draws.1),
    ensures
        mid.bootstrap_nodes.nodes@.len() == 0,
        second.bootstrap@.len() == 0,
        post.bootstrap_nodes.nodes@.len() == 0,
{
    assert(mid.bootstrap_nodes.nodes@ == Seq::<DhtNode>::empty());
}

/// A tick keeps the lists of the friend well formed.
pub proof fn lemma_tick_keeps_wf(
    pre: DhtFriend,
    post: DhtFriend,
    requests: NodesRequests,
    is_ipv6_enabled: bool,
    now: Timestamp,
    first_draw: usize,
    second_draw: usize,
)
    requires
        pre.wf(),
        tick(pre, post, requests, is_ipv6_enabled, now, first_draw, second_draw),
    ensures
        post.wf(),
{
    let before = pre.close_nodes.nodes@;
    let after = post.close_nodes.nodes@;
    assert forall|i: int, j: int| 0 <= i < j < after.len() implies (#[trigger] after[i]).pk != (
    #[trigger] after[j]).pk by {
        assert(after[i].pk == before[i].pk);
        assert(after[j].pk == before[j].pk);
    }
}

} // verus!
