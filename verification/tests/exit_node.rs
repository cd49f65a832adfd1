use easytier::net::{IpAddr, Ipv4Addr, Ipv6Addr};
use easytier::peers::exit_node_selector::{
    choose_best, current_active_loss, find_route, resolve_candidates, EvalStep, ExitNodeCandidate,
    ExitNodeSelector, PathFingerprint, PeerGraph, PeerLink, PeerNode, ResolvedNode, RouteInfo,
};

fn ip(n: u32) -> IpAddr {
    IpAddr::V4(Ipv4Addr { bits: n })
}

fn direct(peer_id: u32, loss: Option<u32>) -> ExitNodeCandidate {
    ExitNodeCandidate {
        ip: ip(peer_id),
        peer_id,
        loss,
        path_cost: Some(10),
        fingerprint: PathFingerprint { is_relay: false, conn_id: 1, gateway_peer_id: 0 },
    }
}

#[test]
fn best_node_is_the_first_good_one() {
    let cs = vec![direct(1, Some(9)), direct(2, Some(1)), direct(3, Some(0))];
    assert_eq!(choose_best(&cs, None), Some(1));
    assert_eq!(choose_best(&cs, Some(2)), Some(2));
    let bad = vec![direct(1, Some(9)), direct(2, Some(7)), direct(3, Some(8))];
    assert_eq!(choose_best(&bad, None), Some(1));
    assert_eq!(choose_best(&vec![], None), None);
}

#[test]
fn quality_is_loss_before_cost() {
    let mut c = direct(1, Some(3));
    assert_eq!(c.quality_score(), 300);
    assert!(c.is_over_threshold() && !c.is_good());
    c.loss = None;
    assert_eq!(c.quality_score(), 10);
    assert!(c.is_good() && !c.is_over_threshold());
    c.path_cost = Some(-5);
    assert_eq!(c.quality_score(), 0);
    c.path_cost = None;
    assert_eq!(c.quality_score(), u64::MAX);
    assert!(!c.is_good());
}

#[test]
fn lossy_node_is_left_when_confirmed() {
    let mut s = ExitNodeSelector::new(99);
    let good = vec![direct(1, Some(0)), direct(2, Some(0))];
    s.finish_evaluation(&good, &vec![], 0);
    assert_eq!(s.get_active_v4_peer_id(), Some(1));
    assert_eq!(s.get_active_v6_peer_id(), None);
    // the connection is seen first, then judged
    s.finish_evaluation(&good, &vec![], 20_000);
    let bad = vec![direct(1, Some(50)), direct(2, Some(0))];
    s.finish_evaluation(&bad, &vec![], 30_000);
    assert_eq!(s.get_active_v4_peer_id(), Some(1));
    s.finish_evaluation(&bad, &vec![], 40_000);
    assert_eq!(s.get_active_v4_peer_id(), Some(2));
    assert_eq!(s.last_switch_at, Some(40_000));
    // the preferred node is seen recovered twice before it is returned to
    let lossy = vec![direct(1, Some(0)), direct(2, Some(1))];
    s.finish_evaluation(&lossy, &vec![], 60_000);
    assert_eq!(s.get_active_v4_peer_id(), Some(2));
    s.finish_evaluation(&lossy, &vec![], 70_000);
    assert_eq!(s.get_active_v4_peer_id(), Some(1));
    s.finish_evaluation(&vec![], &vec![], 80_000);
    assert_eq!(s.get_active_v4_peer_id(), None);
}

#[test]
fn switches_wait_for_each_other() {
    let mut s = ExitNodeSelector::new(99);
    assert!(s.cooldown_elapsed(0, 0));
    s.last_switch_at = Some(100_000);
    assert!(!s.cooldown_elapsed(102_999, 100));
    assert!(s.cooldown_elapsed(105_000, 6));
    assert!(!s.cooldown_elapsed(105_000, 5));
    assert!(s.cooldown_elapsed(110_000, 0));
    let nodes = vec![ip(1), ip(2)];
    assert_eq!(s.begin_evaluation(&nodes, 101_000, 0), EvalStep::Done);
    assert_eq!(s.begin_evaluation(&nodes, 200_000, 0), EvalStep::ResolveAll);
    assert_eq!(s.begin_evaluation(&nodes[..1], 0, 0), EvalStep::ResolveSingle(ip(1)));
    s.set_single_node(ip(1), Some(5));
    assert_eq!(s.get_active_v4_peer_id(), Some(5));
    assert_eq!(s.begin_evaluation(&[], 0, 0), EvalStep::Done);
    assert_eq!(s.get_active_v4_peer_id(), None);
    assert_eq!(current_active_loss(None, Some(4)), 4);
    assert_eq!(current_active_loss(Some(1), Some(4)), 1);
    assert_eq!(current_active_loss(None, None), 0);
}

#[test]
fn relayed_path_loses_on_every_link() {
    let link = |peer_id, loss_rate_percent| PeerLink { peer_id, loss_rate_percent };
    let graph = PeerGraph {
        peers: vec![
            PeerNode { peer_id: 1, direct_peers: vec![link(2, 10)] },
            PeerNode { peer_id: 2, direct_peers: vec![link(1, 10), link(3, 20)] },
            PeerNode { peer_id: 3, direct_peers: vec![link(2, 20), link(4, 30)] },
            PeerNode { peer_id: 4, direct_peers: vec![link(3, 30)] },
        ],
    };
    assert_eq!(graph.path_loss_percents(1, 3, 2), Some(vec![10, 20]));
    assert_eq!(graph.path_loss_percents(1, 4, 2), Some(vec![10, 20, 30]));
    assert_eq!(graph.path_loss_percents(1, 9, 2), None);
}

#[test]
fn resolved_nodes_become_candidates() {
    let route = RouteInfo {
        peer_id: 2,
        next_hop_peer_id: 7,
        next_hop_peer_id_latency_first: Some(8),
        path_latency_latency_first: Some(33),
    };
    assert_eq!(route.first_hop(), 8);
    assert_eq!(find_route(&vec![route], 2), Some(route));
    assert_eq!(find_route(&vec![route], 3), None);
    let six = IpAddr::V6(Ipv6Addr { high: 0, low: 1 });
    let node = |ip, has_direct, route| ResolvedNode {
        ip,
        peer_id: 2,
        has_direct,
        direct_loss: Some(4),
        conn_id: Some(77),
        relay_loss: Some(6),
        route,
    };
    let (v4, v6) = resolve_candidates(&vec![
        node(ip(1), true, None),
        node(six, false, Some(route)),
        node(ip(3), false, None),
    ]);
    assert_eq!(v4[0].loss, Some(4));
    assert_eq!(v4[0].fingerprint.conn_id, 77);
    assert_eq!(v4.len(), 1);
    assert_eq!(v6[0].loss, Some(6));
    assert!(v6[0].fingerprint.is_relay);
    assert_eq!(v6[0].fingerprint.gateway_peer_id, 8);
}
