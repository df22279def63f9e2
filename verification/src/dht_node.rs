//! A node of a close list together with what is known of its liveness.
//!
//! A `PackedNode` holds an address and a key but no state. A close list
//! needs the state too: a node that stopped answering is replaced before a
//! node that answers, however close it is. Liveness is kept per address
//! family, so a node may be reachable over one family and silent on the
//! other.

use vstd::prelude::*;
use crate::addr::{SocketAddr, SocketAddrV4, SocketAddrV6, is_ipv4_mapped, embedded_ipv4};
use crate::key::PublicKey;
use crate::packed_node::PackedNode;
use crate::time::{
    Timestamp, at_least, longer_than, BAD_NODE_TIMEOUT, KILL_NODE_TIMEOUT, PING_INTERVAL,
};

verus! {

/// The socket address of a node in one address family, with the times of the
/// last packets sent to it and received from it.
#[derive(Clone, Copy, Debug, PartialEq, Eq)]
pub struct SockAndTime<T: Copy> {
    /// Socket address of the node.
    pub saddr: Option<T>,
    /// Time of the last response received from the address.
    pub last_resp_time: Option<Timestamp>,
    /// Time of the last request sent to the address.
    pub last_ping_req_time: Option<Timestamp>,
    /// Our own address as this node reported it.
    pub ret_saddr: Option<T>,
    /// Time at which the node last reported our address.
    pub ret_last_resp_time: Option<Timestamp>,
}

impl<T: Copy> SockAndTime<T> {
    /// No response has come within `BAD_NODE_TIMEOUT` seconds before `now`,
    /// or none ever.
    pub open spec fn spec_is_bad(&self, now: Timestamp) -> bool {
        match self.last_resp_time {
            Some(time) => longer_than(now, time, BAD_NODE_TIMEOUT),
            None => true,
        }
    }

    /// No response has come within `KILL_NODE_TIMEOUT` seconds before `now`,
    /// or none ever.
    pub open spec fn spec_is_discarded(&self, now: Timestamp) -> bool {
        match self.last_resp_time {
            Some(time) => longer_than(now, time, KILL_NODE_TIMEOUT),
            None => true,
        }
    }

    /// No request has been sent within `PING_INTERVAL` seconds before `now`,
    /// or none ever.
    pub open spec fn spec_is_ping_interval_passed(&self, now: Timestamp) -> bool {
        match self.last_ping_req_time {
            Some(time) => at_least(now, time, PING_INTERVAL),
            None => true,
        }
    }

    /// The address is to be pinged at `now`: there is one, it is not
    /// discarded and its last request is a ping interval old.
    pub open spec fn ping_due(&self, now: Timestamp) -> bool {
        &&& self.saddr is Some
        &&& !self.spec_is_discarded(now)
        &&& self.spec_is_ping_interval_passed(now)
    }

    /// What `ping_addr` returns at `now`.
    pub open spec fn ping_target(&self, now: Timestamp) -> Option<T> {
        if self.ping_due(now) {
            self.saddr
        } else {
            None
        }
    }

    /// The state that `ping_addr` leaves at `now`.
    pub open spec fn after_ping(self, now: Timestamp) -> Self {
        if self.ping_due(now) {
            SockAndTime { last_ping_req_time: Some(now), ..self }
        } else {
            self
        }
    }

    /// The state for an address that has just been learned at `now`, or for
    /// the absence of one: no request was sent yet, and hearing of an
    /// address counts as a response from it.
    pub open spec fn spec_new(saddr: Option<T>, now: Timestamp) -> Self {
        SockAndTime {
            saddr,
            last_resp_time: if saddr is Some {
                Some(now)
            } else {
                None
            },
            last_ping_req_time: None,
            ret_saddr: None,
            ret_last_resp_time: None,
        }
    }

    /// Create the state for an address that has just been learned at `now`,
    /// or for the absence of one.
    pub fn new(saddr: Option<T>, now: Timestamp) -> (s: Self)
        ensures
            s == Self::spec_new(saddr, now),
    {
        let last_resp_time = if saddr.is_some() {
            Some(now)
        } else {
            None
        };
        SockAndTime {
            saddr,
            last_resp_time,
            last_ping_req_time: None,
            ret_saddr: None,
            ret_last_resp_time: None,
        }
    }

    /// Check if the address is considered bad at `now`, i.e. it has not
    /// answered for `BAD_NODE_TIMEOUT` seconds.
    #[verifier::when_used_as_spec(spec_is_bad)]
    pub fn is_bad(&self, now: Timestamp) -> (r: bool)
        ensures
            r == self.spec_is_bad(now),
    {
        match self.last_resp_time {
            Some(time) => now.is_longer_than(time, BAD_NODE_TIMEOUT),
            None => true,
        }
    }

    /// Check if the address is considered discarded at `now`, i.e. it has not
    /// answered for `KILL_NODE_TIMEOUT` seconds.
    #[verifier::when_used_as_spec(spec_is_discarded)]
    pub fn is_discarded(&self, now: Timestamp) -> (r: bool)
        ensures
            r == self.spec_is_discarded(now),
    {
        match self.last_resp_time {
            Some(time) => now.is_longer_than(time, KILL_NODE_TIMEOUT),
            None => true,
        }
    }

    /// Check if `PING_INTERVAL` has passed at `now` since the last request.
    #[verifier::when_used_as_spec(spec_is_ping_interval_passed)]
    pub fn is_ping_interval_passed(&self, now: Timestamp) -> (r: bool)
        ensures
            r == self.spec_is_ping_interval_passed(now),
    {
        match self.last_ping_req_time {
            Some(time) => now.is_at_least(time, PING_INTERVAL),
            None => true,
        }
    }

    /// Get the address if it should be pinged at `now`, and record `now` as
    /// the time of the last request. Where no ping is due, nothing changes.
    pub fn ping_addr(&mut self, now: Timestamp) -> (r: Option<T>)
        ensures
            r == old(self).ping_target(now),
            *final(self) == old(self).after_ping(now),
    {
        if let Some(saddr) = self.saddr {
            if !self.is_discarded(now) && self.is_ping_interval_passed(now) {
                self.last_ping_req_time = Some(now);
                Some(saddr)
            } else {
                None
            }
        } else {
            None
        }
    }
}

/// A node of a close list: its key and, for each address family, its address
/// with the times of the last packets. The key never changes after creation.
#[derive(Clone, Copy, Debug, PartialEq, Eq)]
pub struct DhtNode {
    /// Socket address and times of the node for IPv4.
    pub assoc4: SockAndTime<SocketAddrV4>,
    /// Socket address and times of the node for IPv6.
    pub assoc6: SockAndTime<SocketAddrV6>,
    /// Public key of the node.
    pub pk: PublicKey,
}

/// Whether the response time `a` is later than `b`. A response is later than
/// none.
pub open spec fn more_recent(a: Option<Timestamp>, b: Option<Timestamp>) -> bool {
    match (a, b) {
        (Some(x), Some(y)) => x.nanos > y.nanos,
        (Some(_), None) => true,
        (None, _) => false,
    }
}

/// The address family under which a node that was heard of at `saddr` is
/// filed: an IPv4 address, and an IPv4-mapped IPv6 address as the IPv4
/// address it stands for, under IPv4; any other IPv6 address under IPv6.
pub open spec fn filed_v4(saddr: SocketAddr) -> Option<SocketAddrV4> {
    match saddr {
        SocketAddr::V4(v4) => Some(v4),
        SocketAddr::V6(v6) => if is_ipv4_mapped(v6.ip) {
            Some(SocketAddrV4 { ip: embedded_ipv4(v6.ip), port: v6.port })
        } else {
            None
        },
    }
}

/// The IPv6 address under which a node that was heard of at `saddr` is
/// filed: `saddr` itself where it is an IPv6 address that is not
/// IPv4-mapped.
pub open spec fn filed_v6(saddr: SocketAddr) -> Option<SocketAddrV6> {
    match saddr {
        SocketAddr::V4(_) => None,
        SocketAddr::V6(v6) => if is_ipv4_mapped(v6.ip) {
            None
        } else {
            Some(v6)
        },
    }
}

impl DhtNode {
    /// The node is bad at `now` on both address families.
    pub open spec fn spec_is_bad(&self, now: Timestamp) -> bool {
        self.assoc4.is_bad(now) && self.assoc6.is_bad(now)
    }

    /// The node is discarded at `now` on both address families.
    pub open spec fn spec_is_discarded(&self, now: Timestamp) -> bool {
        self.assoc4.is_discarded(now) && self.assoc6.is_discarded(now)
    }

    /// The one address to reach the node at. With IPv6 enabled and an
    /// address in both families it is the one that answered later, the IPv6
    /// address where neither did; with one address, that one. With IPv6
    /// disabled only the IPv4 address counts.
    pub open spec fn spec_socket_addr(&self, is_ipv6_enabled: bool) -> Option<SocketAddr> {
        if is_ipv6_enabled {
            match (self.assoc4.saddr, self.assoc6.saddr) {
                (Some(v4), Some(v6)) => if more_recent(
                    self.assoc4.last_resp_time,
                    self.assoc6.last_resp_time,
                ) {
                    Some(SocketAddr::V4(v4))
                } else {
                    Some(SocketAddr::V6(v6))
                },
                (None, Some(v6)) => Some(SocketAddr::V6(v6)),
                (Some(v4), None) => Some(SocketAddr::V4(v4)),
                (None, None) => None,
            }
        } else {
            match self.assoc4.saddr {
                Some(v4) => Some(SocketAddr::V4(v4)),
                None => None,
            }
        }
    }

    /// All addresses to reach the node at: the IPv4 address first, then,
    /// with IPv6 enabled, the IPv6 address.
    pub open spec fn spec_all_addrs(&self, is_ipv6_enabled: bool) -> Seq<SocketAddr> {
        let v4 = match self.assoc4.saddr {
            Some(v4) => seq![SocketAddr::V4(v4)],
            None => seq![],
        };
        let v6 = match self.assoc6.saddr {
            Some(v6) if is_ipv6_enabled => seq![SocketAddr::V6(v6)],
            _ => seq![],
        };
        v4 + v6
    }

    /// The node as a `PackedNode` at its one address, if it has any.
    pub open spec fn spec_packed_node(&self, is_ipv6_enabled: bool) -> Option<PackedNode> {
        match self.spec_socket_addr(is_ipv6_enabled) {
            Some(saddr) => Some(PackedNode { saddr, pk: self.pk }),
            None => None,
        }
    }

    /// The `DhtNode` of a node that has just been heard of at `now`. Exactly
    /// one address family gets the address, with `now` as the time of its
    /// last response; an IPv4-mapped IPv6 address is filed as the IPv4
    /// address it stands for.
    pub open spec fn spec_new(pn: PackedNode, now: Timestamp) -> DhtNode {
        DhtNode {
            assoc4: SockAndTime::spec_new(filed_v4(pn.saddr), now),
            assoc6: SockAndTime::spec_new(filed_v6(pn.saddr), now),
            pk: pn.pk,
        }
    }

    /// Create the `DhtNode` for a node that has just been heard of at `now`.
    pub fn new(pn: PackedNode, now: Timestamp) -> (node: DhtNode)
        ensures
            node == DhtNode::spec_new(pn, now),
            (node.assoc4.saddr is Some) != (node.assoc6.saddr is Some),
    {
        let (saddr_v4, saddr_v6) = match pn.saddr {
            SocketAddr::V4(v4) => (Some(v4), None),
            SocketAddr::V6(v6) => {
                if let Some(converted) = v6.to_ipv4_mapped() {
                    (Some(converted), None)
                } else {
                    (None, Some(v6))
                }
            },
        };
        DhtNode {
            pk: pn.pk,
            assoc4: SockAndTime::new(saddr_v4, now),
            assoc6: SockAndTime::new(saddr_v6, now),
        }
    }

    /// Check if the node is considered bad at `now`, i.e. it has answered
    /// neither on IPv4 nor on IPv6 for `BAD_NODE_TIMEOUT` seconds.
    #[verifier::when_used_as_spec(spec_is_bad)]
    pub fn is_bad(&self, now: Timestamp) -> (r: bool)
        ensures
            r == self.spec_is_bad(now),
    {
        self.assoc4.is_bad(now) && self.assoc6.is_bad(now)
    }

    /// Check if the node is considered discarded at `now`, i.e. it has
    /// answered neither on IPv4 nor on IPv6 for `KILL_NODE_TIMEOUT` seconds.
    #[verifier::when_used_as_spec(spec_is_discarded)]
    pub fn is_discarded(&self, now: Timestamp) -> (r: bool)
        ensures
            r == self.spec_is_discarded(now),
    {
        self.assoc4.is_discarded(now) && self.assoc6.is_discarded(now)
    }

    /// Return the socket address to reach the node at, if there is one
    /// under the given mode.
    pub fn get_socket_addr(&self, is_ipv6_enabled: bool) -> (r: Option<SocketAddr>)
        ensures
            r == self.spec_socket_addr(is_ipv6_enabled),
    {
        if is_ipv6_enabled {
            match self.assoc6.saddr {
                Some(v6) => {
                    match self.assoc4.saddr {
                        Some(v4) => {
                            if is_more_recent(
                                self.assoc4.last_resp_time,
                                self.assoc6.last_resp_time,
                            ) {
                                Some(SocketAddr::V4(v4))
                            } else {
                                Some(SocketAddr::V6(v6))
                            }
                        },
                        None => Some(SocketAddr::V6(v6)),
                    }
                },
                None => match self.assoc4.saddr {
                    Some(v4) => Some(SocketAddr::V4(v4)),
                    None => None,
                },
            }
        } else {
            match self.assoc4.saddr {
                Some(v4) => Some(SocketAddr::V4(v4)),
                None => None,
            }
        }
    }

    /// Return all available socket addresses of the node under the given
    /// mode; none where it has none.
    pub fn get_all_addrs(&self, is_ipv6_enabled: bool) -> (r: Vec<SocketAddr>)
        ensures
            r@ == self.spec_all_addrs(is_ipv6_enabled),
    {
        let mut addrs: Vec<SocketAddr> = Vec::new();
        if let Some(v4) = self.assoc4.saddr {
            addrs.push(SocketAddr::V4(v4));
        }
        if is_ipv6_enabled {
            if let Some(v6) = self.assoc6.saddr {
                addrs.push(SocketAddr::V6(v6));
            }
        }
        addrs
    }

    /// Convert the node to a `PackedNode` at the address that
    /// `get_socket_addr` gives.
    pub fn to_packed_node(&self, is_ipv6_enabled: bool) -> (r: Option<PackedNode>)
        ensures
            r == self.spec_packed_node(is_ipv6_enabled),
    {
        match self.get_socket_addr(is_ipv6_enabled) {
            Some(addr) => Some(PackedNode::new(addr, &self.pk)),
            None => None,
        }
    }

    /// Convert the node to one `PackedNode` for each address that
    /// `get_all_addrs` gives, in that order.
    pub fn to_all_packed_nodes(&self, is_ipv6_enabled: bool) -> (r: Vec<PackedNode>)
        ensures
            r@ == self.spec_all_addrs(is_ipv6_enabled).map_values(
                |saddr: SocketAddr| PackedNode { saddr, pk: self.pk },
            ),
    {
        let addrs = self.get_all_addrs(is_ipv6_enabled);
        let mut nodes: Vec<PackedNode> = Vec::new();
        let mut i: usize = 0;
        while i < addrs.len()
            invariant
                i <= addrs.len(),
                nodes@ == addrs@.take(i as int).map_values(
                    |saddr: SocketAddr| PackedNode { saddr, pk: self.pk },
                ),
            decreases addrs.len() - i,
        {
            nodes.push(PackedNode::new(addrs[i], &self.pk));
            assert(addrs@.take(i + 1) == addrs@.take(i as int).push(addrs@[i as int]));
            i += 1;
        }
        assert(addrs@.take(i as int) == addrs@);
        nodes
    }

    /// Record at `now` that the node reported `addr` as our own address, in
    /// the address family of `addr` as it stands. Liveness is not touched.
    pub fn update_returned_addr(&mut self, addr: SocketAddr, now: Timestamp)
        ensures
            *final(self) == match addr {
                SocketAddr::V4(v4) => DhtNode {
                    assoc4: SockAndTime {
                        ret_saddr: Some(v4),
                        ret_last_resp_time: Some(now),
                        ..old(self).assoc4
                    },
                    ..*old(self)
                },
                SocketAddr::V6(v6) => DhtNode {
                    assoc6: SockAndTime {
                        ret_saddr: Some(v6),
                        ret_last_resp_time: Some(now),
                        ..old(self).assoc6
                    },
                    ..*old(self)
                },
            },
    {
        match addr {
            SocketAddr::V4(v4) => {
                self.assoc4.ret_saddr = Some(v4);
                self.assoc4.ret_last_resp_time = Some(now);
            },
            SocketAddr::V6(v6) => {
                self.assoc6.ret_saddr = Some(v6);
                self.assoc6.ret_last_resp_time = Some(now);
            },
        }
    }
}

/// Whether the response time `a` is later than `b`.
fn is_more_recent(a: Option<Timestamp>, b: Option<Timestamp>) -> (r: bool)
    ensures
        r == more_recent(a, b),
{
    match a {
        Some(x) => match b {
            Some(y) => x.nanos > y.nanos,
            None => true,
        },
        None => false,
    }
}

/// A discarded address is a bad address, and where it has ever answered its
/// last response is more than `KILL_NODE_TIMEOUT` seconds old.
pub proof fn lemma_discarded_is_bad<T: Copy>(s: SockAndTime<T>, now: Timestamp)
    requires
        s.is_discarded(now),
    ensures
        s.is_bad(now),
        BAD_NODE_TIMEOUT < KILL_NODE_TIMEOUT,
        s.last_resp_time matches Some(time) ==> longer_than(now, time, KILL_NODE_TIMEOUT),
{
}

/// The state of an absent address is inert: whenever it is looked at, it is
/// bad and discarded, no ping is handed out for it and it stays as it is.
pub proof fn lemma_absent_address_is_inert<T: Copy>(made: Timestamp, now: Timestamp)
    ensures
        SockAndTime::<T>::spec_new(None, made).is_bad(now),
        SockAndTime::<T>::spec_new(None, made).is_discarded(now),
        SockAndTime::<T>::spec_new(None, made).ping_target(now) is None,
        SockAndTime::<T>::spec_new(None, made).after_ping(now) == SockAndTime::<T>::spec_new(
            None,
            made,
        ),
{
}

/// After a ping was handed out at `first`, a second call at any `second`
/// less than `PING_INTERVAL` seconds later hands out none and leaves the
/// state as the first call left it.
pub proof fn lemma_no_second_ping_within_interval<T: Copy>(
    s: SockAndTime<T>,
    first: Timestamp,
    second: Timestamp,
)
    requires
        s.ping_target(first) is Some,
        !at_least(second, first, PING_INTERVAL),
    ensures
        s.after_ping(first).ping_target(second) is None,
        s.after_ping(first).after_ping(second) == s.after_ping(first),
{
}

} // verus!
