use tox::addr::{SocketAddr, SocketAddrV4, SocketAddrV6};
use tox::dht_friend::{pick_weighted, DhtFriend, MAX_BOOTSTRAP_TIMES, NODES_REQ_INTERVAL};
use tox::dht_node::{DhtNode, SockAndTime};
use tox::key::PublicKey;
use tox::packed_node::PackedNode;
use tox::time::Timestamp;

fn time(s: u64) -> Timestamp {
    Timestamp::from_secs(s)
}

fn public_key(last: u8) -> PublicKey {
    let mut bytes = [0u8; 32];
    bytes[31] = last;
    PublicKey(bytes)
}

fn local(port: u16) -> SocketAddr {
    SocketAddr::V4(SocketAddrV4::new([127, 0, 0, 1], port))
}

#[test]
fn friend_new_test() {
    let _ = DhtFriend::new(public_key(1));
}

#[test]
fn friend_new_has_empty_lists() {
    let friend = DhtFriend::new(public_key(1));
    assert_eq!(friend.pk, public_key(1));
    assert_eq!(friend.close_nodes.capacity, Some(8));
    assert!(friend.close_nodes.is_empty());
    assert_eq!(friend.bootstrap_nodes.capacity, None);
    assert!(friend.bootstrap_nodes.is_empty());
    assert_eq!(friend.last_nodes_req_time, None);
    assert_eq!(friend.bootstrap_times, 0);
}

#[test]
fn friend_ping_bootstrap_nodes_test() {
    let friend_pk = public_key(100);
    let mut friend = DhtFriend::new(friend_pk);
    let now = time(0);

    let node_pk1 = public_key(1);
    let node_pk2 = public_key(2);
    assert!(friend.bootstrap_nodes.try_add(&friend_pk, &PackedNode {
        pk: node_pk1,
        saddr: local(33445),
    }, now));
    assert!(friend.bootstrap_nodes.try_add(&friend_pk, &PackedNode {
        pk: node_pk2,
        saddr: local(33446),
    }, now));

    let requests = friend.send_nodes_req_packets(true, now, 0, 0);

    assert_eq!(requests.bootstrap.len(), 2);
    for node in requests.bootstrap.iter() {
        if node.saddr == local(33445) {
            assert_eq!(node.pk, node_pk1);
        } else {
            assert_eq!(node.saddr, local(33446));
            assert_eq!(node.pk, node_pk2);
        }
    }
    assert_ne!(requests.bootstrap[0].pk, requests.bootstrap[1].pk);
    assert!(requests.close.is_empty());
    assert_eq!(requests.random, None);
    assert!(friend.bootstrap_nodes.is_empty());
}

#[test]
fn bootstrap_nodes_are_handed_out_once() {
    let friend_pk = public_key(100);
    let mut friend = DhtFriend::new(friend_pk);
    for last in 1u8..=20 {
        let node = PackedNode { pk: public_key(last), saddr: local(1000 + last as u16) };
        assert!(friend.bootstrap_nodes.try_add(&friend_pk, &node, time(0)));
    }
    let first = friend.send_nodes_req_packets(true, time(0), 7, 9);
    assert_eq!(first.bootstrap.len(), 20);
    assert!(friend.bootstrap_nodes.is_empty());
    assert_eq!(friend.bootstrap_nodes.capacity, None);
    let second = friend.send_nodes_req_packets(true, time(0), 7, 9);
    assert!(second.bootstrap.is_empty());
    assert!(friend.bootstrap_nodes.is_empty());
}

#[test]
fn ping_bootstrap_nodes_skips_nodes_without_address() {
    let friend_pk = public_key(100);
    let mut friend = DhtFriend::new(friend_pk);
    let a6 = SocketAddr::V6(SocketAddrV6::new([0x2001, 0xdb8, 0, 0, 0, 0, 0, 1], 33445));
    assert!(friend.bootstrap_nodes.try_add(&friend_pk, &PackedNode { pk: public_key(1), saddr: a6 }, time(0)));
    assert!(friend.bootstrap_nodes.try_add(&friend_pk, &PackedNode { pk: public_key(2), saddr: local(2) }, time(0)));
    let requests = friend.ping_bootstrap_nodes(false);
    assert_eq!(requests, vec![PackedNode { pk: public_key(2), saddr: local(2) }]);
    assert!(friend.bootstrap_nodes.is_empty());
}

#[test]
fn friend_ping_and_get_close_nodes_test() {
    let friend_pk = public_key(100);
    let mut friend = DhtFriend::new(friend_pk);
    let now = time(0);

    // Test with no close_nodes entry, send nothing
    let requests = friend.send_nodes_req_packets(true, now, 0, 0);
    assert!(requests.bootstrap.is_empty());
    assert!(requests.close.is_empty());
    assert_eq!(requests.random, None);

    // Now, test with close_nodes entry
    let node_pk1 = public_key(1);
    let node_pk2 = public_key(2);
    assert!(friend.close_nodes.try_add(&friend_pk, &PackedNode {
        pk: node_pk1,
        saddr: local(33445),
    }, now));
    assert!(friend.close_nodes.try_add(&friend_pk, &PackedNode {
        pk: node_pk2,
        saddr: local(33446),
    }, now));

    // Now decide the packets
    let requests = friend.send_nodes_req_packets(true, now, 0, 0);

    assert_eq!(requests.close.len(), 2);
    for node in requests.close.iter() {
        if node.saddr == local(33445) {
            assert_eq!(node.pk, node_pk1);
        } else {
            assert_eq!(node.saddr, local(33446));
            assert_eq!(node.pk, node_pk2);
        }
    }
    assert_ne!(requests.close[0].pk, requests.close[1].pk);
}

#[test]
fn close_nodes_are_pinged_once_per_interval() {
    let friend_pk = public_key(100);
    let mut friend = DhtFriend::new(friend_pk);
    assert!(friend.close_nodes.try_add(&friend_pk, &PackedNode { pk: public_key(1), saddr: local(1) }, time(0)));
    assert!(friend.close_nodes.try_add(&friend_pk, &PackedNode { pk: public_key(2), saddr: local(2) }, time(0)));
    let before = friend.close_nodes.clone();

    let first = friend.ping_and_get_close_nodes(time(5));
    assert_eq!(first.len(), 2);
    assert_eq!(friend.close_nodes.nodes[0].assoc4.last_ping_req_time, Some(time(5)));
    assert_eq!(friend.close_nodes.nodes[1].assoc4.last_ping_req_time, Some(time(5)));
    assert_eq!(friend.close_nodes.nodes[0].assoc6, before.nodes[0].assoc6);
    assert_eq!(friend.close_nodes.nodes[0].pk, before.nodes[0].pk);
    assert_eq!(friend.close_nodes.capacity, before.capacity);

    let stamped = friend.close_nodes.clone();
    assert!(friend.ping_and_get_close_nodes(time(64)).is_empty());
    assert_eq!(friend.close_nodes, stamped);

    let third = friend.ping_and_get_close_nodes(time(65));
    assert_eq!(third.len(), 2);
    assert_eq!(friend.close_nodes.nodes[1].assoc4.last_ping_req_time, Some(time(65)));

    // nothing is sent to a node that is discarded
    assert!(friend.ping_and_get_close_nodes(time(183)).is_empty());
}

#[test]
fn close_nodes_are_pinged_on_both_families() {
    let friend_pk = public_key(100);
    let mut friend = DhtFriend::new(friend_pk);
    let a4 = SocketAddrV4::new([127, 0, 0, 1], 1);
    let a6 = SocketAddrV6::new([0x2001, 0xdb8, 0, 0, 0, 0, 0, 1], 2);
    let mut node = DhtNode::new(PackedNode { pk: public_key(1), saddr: SocketAddr::V4(a4) }, time(0));
    node.assoc6 = SockAndTime::new(Some(a6), time(0));
    assert!(friend.close_nodes.try_insert(&friend_pk, node, time(0)));
    let requests = friend.ping_and_get_close_nodes(time(1));
    assert_eq!(
        requests,
        vec![
            PackedNode { pk: public_key(1), saddr: SocketAddr::V4(a4) },
            PackedNode { pk: public_key(1), saddr: SocketAddr::V6(a6) },
        ]
    );
}

#[test]
fn friend_send_nodes_req_random_test() {
    let friend_pk = public_key(100);
    let mut friend = DhtFriend::new(friend_pk);
    let now = time(0);

    // Test with no close_nodes entry, send nothing
    let requests = friend.send_nodes_req_packets(true, now, 3, 1);
    assert_eq!(requests.random, None);
    assert_eq!(friend.bootstrap_times, 0);
    assert_eq!(friend.last_nodes_req_time, None);

    // Now, test with close_nodes entry
    let node_pk1 = public_key(1);
    let node_pk2 = public_key(2);
    assert!(friend.close_nodes.try_add(&friend_pk, &PackedNode {
        pk: node_pk1,
        saddr: local(33445),
    }, now));
    assert!(friend.close_nodes.try_add(&friend_pk, &PackedNode {
        pk: node_pk2,
        saddr: local(33446),
    }, now));

    // Now decide the packets
    let requests = friend.send_nodes_req_packets(true, now, 3, 1);

    let node = requests.random.unwrap();
    if node.saddr == local(33445) {
        assert_eq!(node.pk, node_pk1);
    } else {
        assert_eq!(node.saddr, local(33446));
        assert_eq!(node.pk, node_pk2);
    }
    assert_eq!(friend.bootstrap_times, 1);
    assert_eq!(friend.last_nodes_req_time, Some(now));
}

#[test]
fn random_request_goes_to_the_picked_node() {
    let friend_pk = PublicKey([0; 32]);
    let mut friend = DhtFriend::new(friend_pk);
    for last in 1u8..=4 {
        let node = PackedNode { pk: public_key(last), saddr: local(last as u16) };
        assert!(friend.close_nodes.try_add(&friend_pk, &node, time(0)));
    }
    // first draw 7 falls on place 3 of 4, second draw 6 moves it by 6 % 4 = 2
    let picked = friend.send_nodes_req_random(true, time(1), 7, 6).unwrap();
    assert_eq!(picked, PackedNode { pk: public_key(2), saddr: local(2) });
    // first draw 8 falls on place 0
    let picked = friend.send_nodes_req_random(true, time(1), 8, 5).unwrap();
    assert_eq!(picked, PackedNode { pk: public_key(1), saddr: local(1) });
    assert_eq!(friend.bootstrap_times, 2);
}

#[test]
fn random_request_is_held_back_after_three_within_the_interval() {
    assert_eq!(MAX_BOOTSTRAP_TIMES, 3);
    assert_eq!(NODES_REQ_INTERVAL, 60);
    let friend_pk = PublicKey([0; 32]);
    let mut friend = DhtFriend::new(friend_pk);
    let node = PackedNode { pk: public_key(1), saddr: local(1) };
    assert!(friend.close_nodes.try_add(&friend_pk, &node, time(0)));
    assert_eq!(friend.send_nodes_req_random(true, time(1), 0, 0), Some(node));
    assert_eq!(friend.send_nodes_req_random(true, time(2), 0, 0), Some(node));
    assert_eq!(friend.send_nodes_req_random(true, time(3), 0, 0), Some(node));
    assert_eq!(friend.bootstrap_times, 3);
    let before = friend.clone();
    assert_eq!(friend.send_nodes_req_random(true, time(4), 0, 0), None);
    assert_eq!(friend.send_nodes_req_random(true, time(62), 0, 0), None);
    assert_eq!(friend.bootstrap_times, before.bootstrap_times);
    assert_eq!(friend.last_nodes_req_time, Some(time(3)));
    assert_eq!(friend.send_nodes_req_random(true, time(63), 0, 0), Some(node));
    assert_eq!(friend.bootstrap_times, 4);
    assert_eq!(friend.last_nodes_req_time, Some(time(63)));
}

#[test]
fn random_request_counter_stops_at_its_maximum() {
    let friend_pk = PublicKey([0; 32]);
    let mut friend = DhtFriend::new(friend_pk);
    let node = PackedNode { pk: public_key(1), saddr: local(1) };
    assert!(friend.close_nodes.try_add(&friend_pk, &node, time(0)));
    friend.bootstrap_times = u32::MAX;
    assert_eq!(friend.send_nodes_req_random(true, time(1), 0, 0), Some(node));
    assert_eq!(friend.bootstrap_times, u32::MAX);
    assert_eq!(friend.last_nodes_req_time, Some(time(1)));
}

#[test]
fn random_request_skips_bad_nodes() {
    let friend_pk = PublicKey([0; 32]);
    let mut friend = DhtFriend::new(friend_pk);
    let near = PackedNode { pk: public_key(1), saddr: local(1) };
    let far = PackedNode { pk: public_key(9), saddr: local(9) };
    assert!(friend.close_nodes.try_add(&friend_pk, &near, time(0)));
    assert!(friend.close_nodes.try_add(&friend_pk, &far, time(100)));
    // at 200 s only the far node is good
    assert_eq!(friend.send_nodes_req_random(true, time(200), 1, 0), Some(far));
    // at 300 s none is
    assert_eq!(friend.send_nodes_req_random(true, time(300), 1, 0), None);
    assert_eq!(friend.bootstrap_times, 1);
}

#[test]
fn pick_weighted_follows_the_two_draws() {
    assert_eq!(pick_weighted(1, 12345, 678), 0);
    assert_eq!(pick_weighted(4, 0, 3), 0);
    assert_eq!(pick_weighted(4, 3, 0), 3);
    assert_eq!(pick_weighted(4, 3, 1), 2);
    assert_eq!(pick_weighted(4, 3, 3), 0);
    assert_eq!(pick_weighted(4, 3, 4), 3);
    assert_eq!(pick_weighted(4, 6, 5), 0);
    assert_eq!(pick_weighted(10, 19, 25), 4);
    assert_eq!(pick_weighted(usize::MAX, usize::MAX - 1, 0), usize::MAX - 1);
}

#[test]
fn pick_weighted_favours_the_front_place() {
    // over all pairs of draws below 4 * 12, each place of the first draw and
    // each move of the second come up equally often
    let len = 4usize;
    let mut counts = [0usize; 4];
    for first in 0..len {
        for second in 0..12usize {
            let place = pick_weighted(len, first, second);
            assert!(place <= first);
            counts[place] += 1;
        }
    }
    assert_eq!(counts, [25, 13, 7, 3]);
    assert!(counts[0] * len > 48);
}

#[test]
fn pick_weighted_picks_the_front_more_often_than_evenly() {
    let mut state: u64 = 0x9e37_79b9_7f4a_7c15;
    let mut draw = |state: &mut u64| {
        *state ^= *state << 13;
        *state ^= *state >> 7;
        *state ^= *state << 17;
        (*state >> 16) as usize
    };
    for len in [2usize, 3, 5, 8] {
        let trials = 40_000usize;
        let mut front = 0usize;
        for _ in 0..trials {
            let first = draw(&mut state);
            let second = draw(&mut state);
            let place = pick_weighted(len, first, second);
            assert!(place < len);
            if place == 0 {
                front += 1;
            }
        }
        assert!(front * len > trials + trials / 10);
    }
}

#[test]
fn friend_get_addrs_of_clients_test() {
    let friend_pk = public_key(100);
    let mut friend = DhtFriend::new(friend_pk);
    let now = time(0);
    let v6 = SocketAddr::V6(SocketAddrV6::new([0x2001, 0xdb8, 0, 0, 0, 0, 0, 1], 33445));

    let node_pk1 = public_key(1);
    assert!(friend.close_nodes.try_add(&friend_pk, &PackedNode {
        pk: node_pk1,
        saddr: SocketAddr::V4(SocketAddrV4::new([127, 0, 0, 1], 33445)),
    }, now));
    let node_pk2 = public_key(2);
    assert!(friend.close_nodes.try_add(&friend_pk, &PackedNode {
        pk: node_pk2,
        saddr: v6,
    }, now));
    let node_pk3 = public_key(3);
    assert!(friend.close_nodes.try_add(&friend_pk, &PackedNode {
        pk: node_pk3,
        saddr: SocketAddr::V4(SocketAddrV4::new([127, 0, 0, 2], 33445)),
    }, now));
    let node_pk4 = public_key(4);
    assert!(friend.close_nodes.try_add(&friend_pk, &PackedNode {
        pk: node_pk4,
        saddr: SocketAddr::V4(SocketAddrV4::new([127, 0, 0, 3], 33445)),
    }, now));

    assert!(friend.get_addrs_of_clients(true).contains(&SocketAddr::V4(SocketAddrV4::new([127, 0, 0, 1], 33445))));
    assert!(friend.get_addrs_of_clients(true).contains(&SocketAddr::V4(SocketAddrV4::new([127, 0, 0, 2], 33445))));
    assert!(friend.get_addrs_of_clients(true).contains(&SocketAddr::V4(SocketAddrV4::new([127, 0, 0, 3], 33445))));
    assert!(friend.get_addrs_of_clients(true).contains(&v6));
    assert_eq!(friend.get_addrs_of_clients(true).len(), 4);
    assert_eq!(friend.get_addrs_of_clients(false).len(), 3);
    assert!(!friend.get_addrs_of_clients(false).contains(&v6));
}

#[test]
fn one_tick_asks_both_bootstrap_nodes() {
    let friend_pk = public_key(0xf0);
    let mut friend = DhtFriend::new(friend_pk);
    let (k1, addr1) = (public_key(1), local(33445));
    let (k2, addr2) = (public_key(2), local(33446));
    assert!(friend.bootstrap_nodes.try_add(&friend_pk, &PackedNode { pk: k1, saddr: addr1 }, time(0)));
    assert!(friend.bootstrap_nodes.try_add(&friend_pk, &PackedNode { pk: k2, saddr: addr2 }, time(0)));
    let requests = friend.send_nodes_req_packets(true, time(0), 11, 22);
    assert_eq!(requests.bootstrap.len() + requests.close.len(), 2);
    assert_eq!(requests.random, None);
    assert!(requests.bootstrap.contains(&PackedNode { pk: k1, saddr: addr1 }));
    assert!(requests.bootstrap.contains(&PackedNode { pk: k2, saddr: addr2 }));
    assert!(friend.bootstrap_nodes.is_empty());
}
