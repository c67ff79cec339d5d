use essentia_payment_plugin::implementation::router::FeePolicy;
use essentia_payment_plugin::errors::{PaymentError, RoutingError};
use essentia_payment_plugin::PaymentRouter;

fn key(tag: u8) -> [u8; 33] {
    let mut k = [tag; 33];
    k[0] = 2;
    k
}

fn policy(base: u64, rate: u32, delta: u16) -> FeePolicy {
    FeePolicy { base_fee_msat: base, proportional_millionths: rate, cltv_expiry_delta: delta }
}

#[test]
fn find_route_on_empty_graph_is_no_path() {
    let router = PaymentRouter::new();
    let r = router.find_route(&key(9), 1000);
    assert!(matches!(r, Err(PaymentError::Routing(RoutingError::NoPath))));
}

#[test]
fn find_route_direct_channel_is_free() {
    let mut router = PaymentRouter::new();
    router.set_local_node(key(1));
    router.add_channel(key(1), key(2), 100, policy(1000, 100, 40), 50_000, 0);
    let route = router.find_route(&key(2), 50_000).unwrap();
    assert_eq!(route.hops.len(), 1);
    assert_eq!(route.hops[0].pubkey, key(2));
    assert_eq!(route.hops[0].short_channel_id, 100);
    assert_eq!(route.hops[0].fee_msat, 0);
    assert_eq!(route.total_fees_msat, 0);
    assert_eq!(route.total_cltv_delta, 0);
}

#[test]
fn find_route_two_hops_charges_the_second_channel() {
    let mut router = PaymentRouter::new();
    router.set_local_node(key(1));
    router.add_channel(key(1), key(2), 100, policy(7, 0, 10), 2_000_000, 0);
    router.add_channel(key(2), key(3), 200, policy(1000, 2000, 40), 2_000_000, 0);
    let route = router.find_route(&key(3), 1_000_000).unwrap();
    assert_eq!(route.hops.len(), 2);
    assert_eq!(route.hops[0].short_channel_id, 100);
    assert_eq!(route.hops[0].fee_msat, 0);
    assert_eq!(route.hops[1].short_channel_id, 200);
    // 1000 + 1_000_000 * 2000 / 1_000_000
    assert_eq!(route.hops[1].fee_msat, 3000);
    assert_eq!(route.hops[1].cltv_expiry_delta, 40);
    assert_eq!(route.total_fees_msat, 3000);
    assert_eq!(route.total_cltv_delta, 40);
}

#[test]
fn find_route_prefers_lower_fees() {
    let mut router = PaymentRouter::new();
    router.set_local_node(key(1));
    router.add_channel(key(1), key(2), 1, policy(0, 0, 0), 10_000_000, 0);
    router.add_channel(key(1), key(3), 2, policy(0, 0, 0), 10_000_000, 0);
    router.add_channel(key(2), key(4), 3, policy(500, 0, 10), 10_000_000, 0);
    router.add_channel(key(3), key(4), 4, policy(100, 0, 90), 10_000_000, 0);
    let route = router.find_route(&key(4), 1_000_000).unwrap();
    assert_eq!(route.hops[0].short_channel_id, 2);
    assert_eq!(route.total_fees_msat, 100);
    assert_eq!(route.total_cltv_delta, 90);
}

#[test]
fn find_route_breaks_ties_by_cltv_then_hops_then_key() {
    let mut router = PaymentRouter::new();
    router.set_local_node(key(1));
    router.add_channel(key(1), key(3), 1, policy(0, 0, 0), 10_000_000, 0);
    router.add_channel(key(1), key(2), 2, policy(0, 0, 0), 10_000_000, 0);
    router.add_channel(key(3), key(4), 3, policy(100, 0, 10), 10_000_000, 0);
    router.add_channel(key(2), key(4), 4, policy(100, 0, 10), 10_000_000, 0);
    let route = router.find_route(&key(4), 1_000_000).unwrap();
    // same fees, same delta, same length: the smaller first-hop key wins
    assert_eq!(route.hops[0].pubkey, key(2));
    router.add_channel(key(3), key(4), 5, policy(100, 0, 5), 10_000_000, 0);
    let route = router.find_route(&key(4), 1_000_000).unwrap();
    assert_eq!(route.hops[1].short_channel_id, 5);
    assert_eq!(route.total_cltv_delta, 5);
}

#[test]
fn find_route_reports_insufficient_capacity() {
    let mut router = PaymentRouter::new();
    router.set_local_node(key(1));
    router.add_channel(key(1), key(2), 1, policy(0, 0, 0), 10_000, 0);
    router.add_channel(key(2), key(3), 2, policy(1, 0, 0), 10_000, 0);
    // the first hop must carry amount + fee = 10_001
    let r = router.find_route(&key(3), 10_000);
    assert!(matches!(r, Err(PaymentError::Routing(RoutingError::InsufficientCapacity))));
    let r = router.find_route(&key(3), 9_999);
    assert!(r.is_ok());
    let r = router.find_route(&key(7), 1);
    assert!(matches!(r, Err(PaymentError::Routing(RoutingError::NoPath))));
}

#[test]
fn find_route_respects_direction() {
    let mut router = PaymentRouter::new();
    router.set_local_node(key(2));
    router.add_channel(key(1), key(2), 1, policy(0, 0, 0), 10_000, 500);
    let route = router.find_route(&key(1), 400).unwrap();
    assert_eq!(route.hops[0].pubkey, key(1));
    let r = router.find_route(&key(1), 501);
    assert!(matches!(r, Err(PaymentError::Routing(RoutingError::InsufficientCapacity))));
}

#[test]
fn add_node_and_channel_are_idempotent() {
    let mut router = PaymentRouter::new();
    router.add_node(key(1));
    router.add_node(key(1));
    assert_eq!(router.node_count(), 1);
    router.add_channel(key(1), key(2), 9, policy(1, 1, 1), 5, 5);
    router.add_channel(key(1), key(2), 9, policy(2, 2, 2), 7, 7);
    assert_eq!(router.node_count(), 2);
    assert_eq!(router.channel_count(), 1);
}

#[test]
fn apply_route_moves_balances() {
    let mut router = PaymentRouter::new();
    router.set_local_node(key(1));
    router.add_channel(key(1), key(2), 100, policy(0, 0, 0), 2_000_000, 0);
    router.add_channel(key(2), key(3), 200, policy(1000, 0, 40), 2_000_000, 0);
    let route = router.find_route(&key(3), 1_000_000).unwrap();
    assert!(router.apply_route(&route, 1_000_000).is_ok());
    // a second payment of the same size no longer fits through the second channel
    let again = router.find_route(&key(3), 1_000_001);
    assert!(matches!(again, Err(PaymentError::Routing(RoutingError::InsufficientCapacity))));
    let back = router.find_route(&key(3), 998_000);
    assert!(back.is_ok());
}

#[test]
fn risk_factor_weighs_the_time_lock_against_fees() {
    let mut router = PaymentRouter::new();
    assert_eq!(router.risk_factor(), 1);
    router.set_local_node(key(1));
    router.add_channel(key(1), key(2), 1, policy(0, 0, 0), 10_000_000, 0);
    router.add_channel(key(1), key(3), 2, policy(0, 0, 0), 10_000_000, 0);
    // 150 millisatoshis and 10 blocks, against 100 millisatoshis and 90 blocks
    router.add_channel(key(2), key(4), 3, policy(150, 0, 10), 10_000_000, 0);
    router.add_channel(key(3), key(4), 4, policy(100, 0, 90), 10_000_000, 0);
    let route = router.find_route(&key(4), 1_000_000).unwrap();
    assert_eq!(route.hops[1].short_channel_id, 3);
    assert_eq!((route.total_fees_msat, route.total_cltv_delta), (150, 10));
    router.set_risk_factor(0);
    let route = router.find_route(&key(4), 1_000_000).unwrap();
    assert_eq!(route.hops[1].short_channel_id, 4);
    assert_eq!((route.total_fees_msat, route.total_cltv_delta), (100, 90));
    router.set_risk_factor(1_000);
    let route = router.find_route(&key(4), 1_000_000).unwrap();
    assert_eq!(route.hops[1].short_channel_id, 3);
}

#[test]
fn dearer_tail_with_shorter_time_lock_can_win_upstream() {
    // From node 3 to node 5 there is a cheap way with a long time lock and a
    // dear way with a short one. Which is better depends on the risk factor,
    // and both have to be kept while the search moves on to node 2.
    let mut router = PaymentRouter::new();
    router.set_local_node(key(1));
    router.add_channel(key(1), key(2), 1, policy(0, 0, 0), 10_000_000_000, 0);
    router.add_channel(key(2), key(3), 2, policy(10, 0, 5), 10_000_000_000, 0);
    router.add_channel(key(3), key(5), 3, policy(100, 0, 400), 10_000_000_000, 0);
    router.add_channel(key(3), key(4), 4, policy(200, 0, 10), 10_000_000_000, 0);
    router.add_channel(key(4), key(5), 5, policy(200, 0, 10), 10_000_000_000, 0);
    router.set_risk_factor(0);
    let route = router.find_route(&key(5), 1_000_000).unwrap();
    assert_eq!(route.hops.len(), 3);
    assert_eq!((route.total_fees_msat, route.total_cltv_delta), (110, 405));
    router.set_risk_factor(2);
    let route = router.find_route(&key(5), 1_000_000).unwrap();
    assert_eq!(route.hops.len(), 4);
    assert_eq!((route.total_fees_msat, route.total_cltv_delta), (410, 25));
}

#[test]
fn proportional_fees_accumulate_backward() {
    let mut router = PaymentRouter::new();
    router.set_local_node(key(1));
    router.add_channel(key(1), key(2), 1, policy(0, 0, 0), 10_000_000_000, 0);
    router.add_channel(key(2), key(3), 2, policy(0, 10_000, 0), 10_000_000_000, 0);
    router.add_channel(key(3), key(4), 3, policy(0, 10_000, 0), 10_000_000_000, 0);
    let route = router.find_route(&key(4), 1_000_000).unwrap();
    // node 3 charges 1% of 1_000_000; node 2 charges 1% of 1_010_000
    assert_eq!(route.hops[2].fee_msat, 10_000);
    assert_eq!(route.hops[1].fee_msat, 10_100);
    assert_eq!(route.hops[0].fee_msat, 0);
    assert_eq!(route.total_fees_msat, 20_100);
}

#[test]
fn a_route_may_be_as_long_as_the_graph() {
    let mut router = PaymentRouter::new();
    router.set_local_node(key(1));
    for i in 1..=40u8 {
        router.add_channel(key(i), key(i + 1), i as u64, policy(1, 0, 1), 1_000_000, 0);
    }
    let route = router.find_route(&key(21), 1_000).unwrap();
    assert_eq!(route.hops.len(), 20);
    assert_eq!(route.total_fees_msat, 19);
    assert_eq!(route.total_cltv_delta, 19);
    let route = router.find_route(&key(22), 1_000).unwrap();
    assert_eq!(route.hops.len(), 21);
    assert_eq!(route.total_fees_msat, 20);
    let route = router.find_route(&key(41), 1_000).unwrap();
    assert_eq!(route.hops.len(), 40);
    assert_eq!(route.hops[39].pubkey, key(41));
    assert_eq!(route.total_fees_msat, 39);
    assert_eq!(route.total_cltv_delta, 39);
}

#[test]
fn a_long_detour_beats_a_dear_shortcut() {
    let mut router = PaymentRouter::new();
    router.set_local_node(key(1));
    for i in 1..=25u8 {
        router.add_channel(key(i), key(i + 1), i as u64, policy(1, 0, 0), 1_000_000, 0);
    }
    router.add_channel(key(1), key(50), 100, policy(0, 0, 0), 1_000_000, 0);
    router.add_channel(key(50), key(26), 101, policy(1_000, 0, 0), 1_000_000, 0);
    let route = router.find_route(&key(26), 1_000).unwrap();
    assert_eq!(route.hops.len(), 25);
    assert_eq!(route.total_fees_msat, 24);
}

#[test]
fn excluded_channels_are_avoided() {
    let mut router = PaymentRouter::new();
    router.set_local_node(key(1));
    router.add_channel(key(1), key(2), 1, policy(0, 0, 0), 1_000_000, 0);
    router.add_channel(key(1), key(2), 2, policy(0, 0, 0), 1_000_000, 0);
    let route = router.find_route_excluding(&key(2), 1_000, &vec![]).unwrap();
    assert_eq!(route.hops[0].short_channel_id, 1);
    let route = router.find_route_excluding(&key(2), 1_000, &vec![1]).unwrap();
    assert_eq!(route.hops[0].short_channel_id, 2);
    let r = router.find_route_excluding(&key(2), 1_000, &vec![2, 1]);
    assert!(matches!(r, Err(PaymentError::Routing(RoutingError::NoPath))));
}

#[test]
fn payment_to_self_goes_round_a_cycle() {
    let mut router = PaymentRouter::new();
    router.set_local_node(key(1));
    let r = router.find_route(&key(1), 1_000);
    assert!(matches!(r, Err(PaymentError::Routing(RoutingError::NoPath))));
    router.add_channel(key(1), key(2), 1, policy(0, 0, 0), 1_000_000, 0);
    router.add_channel(key(2), key(3), 2, policy(5, 0, 0), 1_000_000, 0);
    router.add_channel(key(3), key(1), 3, policy(7, 0, 0), 1_000_000, 0);
    let route = router.find_route(&key(1), 1_000).unwrap();
    assert_eq!(route.hops.len(), 3);
    assert_eq!(route.hops[2].pubkey, key(1));
    assert_eq!(route.total_fees_msat, 12);
}

#[test]
fn equal_routes_are_told_apart_by_their_channels() {
    // two channels from node 2 to node 3 with the same terms
    let mut router = PaymentRouter::new();
    router.set_local_node(key(1));
    router.add_channel(key(1), key(2), 1, policy(0, 0, 0), 1_000_000, 0);
    router.add_channel(key(2), key(3), 21, policy(5, 0, 3), 1_000_000, 0);
    router.add_channel(key(2), key(3), 20, policy(5, 0, 3), 1_000_000, 0);
    let route = router.find_route(&key(3), 1_000).unwrap();
    assert_eq!(route.hops.len(), 2);
    assert_eq!(route.hops[1].short_channel_id, 21);
    assert_eq!(route.total_fees_msat, 5);
    // the same graph, asked again, gives the same route
    let again = router.find_route(&key(3), 1_000).unwrap();
    assert_eq!(again.hops.len(), 2);
    assert_eq!(again.hops[0].short_channel_id, route.hops[0].short_channel_id);
    assert_eq!(again.hops[1].short_channel_id, route.hops[1].short_channel_id);
    // without the channel that was added first the other one is taken
    let route = router.find_route_excluding(&key(3), 1_000, &vec![21]).unwrap();
    assert_eq!(route.hops[1].short_channel_id, 20);
}

#[test]
fn equal_routes_over_different_nodes_are_told_apart() {
    // local -> 2 -> {3, 4} -> 5, both ways at the same price
    let mut router = PaymentRouter::new();
    router.set_local_node(key(1));
    router.add_channel(key(1), key(2), 1, policy(0, 0, 0), 1_000_000, 0);
    router.add_channel(key(2), key(4), 24, policy(1, 0, 1), 1_000_000, 0);
    router.add_channel(key(2), key(3), 23, policy(1, 0, 1), 1_000_000, 0);
    router.add_channel(key(3), key(5), 35, policy(1, 0, 1), 1_000_000, 0);
    router.add_channel(key(4), key(5), 45, policy(1, 0, 1), 1_000_000, 0);
    let route = router.find_route(&key(5), 1_000).unwrap();
    assert_eq!(route.hops.len(), 3);
    assert_eq!(route.total_fees_msat, 2);
    assert_eq!(route.hops[1].short_channel_id, 24);
    assert_eq!(route.hops[1].pubkey, key(4));
    assert_eq!(route.hops[2].short_channel_id, 45);
}

#[test]
fn a_grid_of_equal_channels_is_searched_to_the_end() {
    // a grid of six by six nodes; every channel charges one millisatoshi
    let side = 6u8;
    let node = |row: u8, col: u8| key(10 + row * side + col);
    let mut router = PaymentRouter::new();
    router.set_local_node(node(0, 0));
    let mut scid = 1u64;
    for row in 0..side {
        for col in 0..side {
            if col + 1 < side {
                router.add_channel(
                    node(row, col),
                    node(row, col + 1),
                    scid,
                    policy(1, 0, 1),
                    1_000_000,
                    1_000_000,
                );
                scid += 1;
            }
            if row + 1 < side {
                router.add_channel(
                    node(row, col),
                    node(row + 1, col),
                    scid,
                    policy(1, 0, 1),
                    1_000_000,
                    1_000_000,
                );
                scid += 1;
            }
        }
    }
    assert_eq!(router.node_count(), 36);
    assert_eq!(router.channel_count(), 60);
    let route = router.find_route(&node(5, 5), 1_000).unwrap();
    assert_eq!(route.hops.len(), 10);
    assert_eq!(route.total_fees_msat, 9);
    assert_eq!(route.total_cltv_delta, 9);
    assert_eq!(route.hops[9].pubkey, node(5, 5));
    // of the two first hops the one with the smaller key is taken
    assert_eq!(route.hops[0].pubkey, node(0, 1));
    let again = router.find_route(&node(5, 5), 1_000).unwrap();
    for i in 0..10 {
        assert_eq!(again.hops[i].short_channel_id, route.hops[i].short_channel_id);
    }
}

#[test]
fn apply_route_names_the_first_hop_that_fails() {
    let mut router = PaymentRouter::new();
    router.set_local_node(key(1));
    router.add_channel(key(1), key(2), 100, policy(0, 0, 0), 2_000_000, 0);
    router.add_channel(key(2), key(3), 200, policy(0, 0, 0), 2_000_000, 0);
    router.add_channel(key(3), key(4), 300, policy(0, 0, 0), 2_000_000, 0);
    let route = router.find_route(&key(4), 1_500_000).unwrap();
    assert_eq!(route.hops.len(), 3);
    // a payment over the last two channels leaves them too little
    let mut other = PaymentRouter::new();
    other.set_local_node(key(2));
    other.add_channel(key(1), key(2), 100, policy(0, 0, 0), 2_000_000, 0);
    other.add_channel(key(2), key(3), 200, policy(0, 0, 0), 1_000_000, 0);
    other.add_channel(key(3), key(4), 300, policy(0, 0, 0), 1_000_000, 0);
    assert_eq!(other.apply_route(&route, 1_500_000), Err(200));
    // nothing has moved: the first channel still carries the amount
    assert!(other.find_route(&key(3), 1_000_000).is_ok());
    let mut short = PaymentRouter::new();
    short.set_local_node(key(1));
    short.add_channel(key(1), key(2), 100, policy(0, 0, 0), 2_000_000, 0);
    short.add_channel(key(2), key(3), 200, policy(0, 0, 0), 2_000_000, 0);
    assert_eq!(short.apply_route(&route, 1_500_000), Err(300));
    assert!(short.find_route(&key(3), 2_000_000).is_ok());
}
