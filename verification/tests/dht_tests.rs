use dcp_node::dht::{xor_distance, KademliaTable, NodeInfo, XorDistance};
use dcp_node::net::{IpAddress, SocketAddress};

fn id(b: u8) -> [u8; 32] {
    let mut v = [0u8; 32];
    v[31] = b;
    v
}

fn node(node_id: [u8; 32], last_seen: u64) -> NodeInfo {
    NodeInfo {
        node_id,
        addr: SocketAddress { ip: IpAddress::v4(10, 0, 0, node_id[31]), port: 9876 },
        country: "CN".to_string(),
        avg_rtt_ms: 20,
        reputation: 0,
        last_seen,
    }
}

fn ids(nodes: &[NodeInfo]) -> Vec<[u8; 32]> {
    nodes.iter().map(|n| n.node_id).collect()
}

#[test]
fn test_xor_distance() {
    let a = [0u8; 32];
    let b = [1u8; 32];
    let dist = xor_distance(&a, &b);
    assert_eq!(dist[0], 1);
}

#[test]
fn xor_distance_is_bytewise() {
    let mut a = [0u8; 32];
    let mut b = [0u8; 32];
    a[0] = 0b1100;
    b[0] = 0b1010;
    a[31] = 0xFF;
    let d = xor_distance(&a, &b);
    assert_eq!(d[0], 0b0110);
    assert_eq!(d[31], 0xFF);
    assert_eq!(xor_distance(&a, &a), [0u8; 32]);
    assert_eq!(xor_distance(&a, &b), xor_distance(&b, &a));
}

#[test]
fn xor_distances_order_closest_first() {
    let near = XorDistance { distance: id(1), node_id: id(9) };
    let far = XorDistance { distance: id(2), node_id: id(3) };
    assert!(near < far);
    assert!(near.is_closer_than(&far));
    assert!(!far.is_closer_than(&near));
    assert!(!near.is_closer_than(&near));
    let mut v = vec![far, near];
    v.sort();
    assert_eq!(v[0].node_id, id(9));
}

#[test]
fn add_get_remove() {
    let mut t = KademliaTable::new([0u8; 32]);
    assert_eq!(t.len(), 0);
    t.add_node(node(id(1), 5));
    t.add_node(node(id(2), 6));
    assert_eq!(t.len(), 2);
    assert_eq!(t.get_node(&id(1)).unwrap().last_seen, 5);
    t.add_node_at(node(id(1), 50), 100);
    assert_eq!(t.len(), 2);
    assert_eq!(t.get_node(&id(1)).unwrap().last_seen, 50);
    t.remove_node(&id(1));
    assert!(t.get_node(&id(1)).is_none());
    assert_eq!(t.len(), 1);
    t.remove_node(&id(77));
    assert_eq!(t.len(), 1);
}

#[test]
fn full_table_evicts_least_recently_seen() {
    let mut t = KademliaTable::new([0u8; 32]);
    for i in 0..1000u32 {
        let mut nid = [0u8; 32];
        nid[0..4].copy_from_slice(&i.to_le_bytes());
        nid[31] = 1;
        t.add_node_at(node(nid, 1000 + i as u64), 5000);
    }
    assert_eq!(t.len(), 1000);
    let mut oldest = [0u8; 32];
    oldest[31] = 1;
    assert!(t.get_node(&oldest).is_some());
    t.add_node_at(node(id(200), 4000), 5000);
    assert_eq!(t.len(), 1000);
    assert!(t.get_node(&oldest).is_none());
    assert!(t.get_node(&id(200)).is_some());
}

#[test]
fn full_table_of_fresh_nodes_grows() {
    let mut t = KademliaTable::new([0u8; 32]);
    for i in 0..1000u32 {
        let mut nid = [0u8; 32];
        nid[0..4].copy_from_slice(&i.to_le_bytes());
        nid[31] = 1;
        t.add_node_at(node(nid, 7000), 5000);
    }
    t.add_node_at(node(id(200), 7000), 5000);
    assert_eq!(t.len(), 1001);
}

#[test]
fn find_closest_returns_the_nearest_first() {
    let mut t = KademliaTable::new([0u8; 32]);
    for b in [9u8, 1, 12, 4, 3] {
        t.add_node_at(node(id(b), 1), 2);
    }
    let target = id(0);
    assert_eq!(ids(&t.find_closest(&target, 3)), vec![id(1), id(3), id(4)]);
    assert_eq!(ids(&t.find_closest(&id(8), 2)), vec![id(9), id(12)]);
    assert_eq!(t.find_closest(&target, 10).len(), 5);
    assert!(t.find_closest(&target, 0).is_empty());
    let empty = KademliaTable::new([0u8; 32]);
    assert!(empty.find_closest(&target, 3).is_empty());
}

#[test]
fn consensus_needs_three_views() {
    let mut t = KademliaTable::new([0u8; 32]);
    for b in 1..=4u8 {
        t.add_node_at(node(id(b), 1), 2);
    }
    let view: Vec<NodeInfo> = (1..=4u8).map(|b| node(id(b), 1)).collect();
    assert!(t.verify_consensus(vec![view.clone(), view.clone()]).is_none());
    assert!(t.verify_consensus(vec![]).is_none());
}

#[test]
fn consensus_keeps_nodes_seen_by_two_thirds() {
    let mut t = KademliaTable::new([0u8; 32]);
    for b in 1..=5u8 {
        t.add_node_at(node(id(b), b as u64), 100);
    }
    let v1: Vec<NodeInfo> = [1u8, 2, 3, 4].iter().map(|&b| node(id(b), 0)).collect();
    let v2: Vec<NodeInfo> = [1u8, 2, 3, 9].iter().map(|&b| node(id(b), 0)).collect();
    let v3: Vec<NodeInfo> = [2u8, 3, 5, 9].iter().map(|&b| node(id(b), 0)).collect();
    let got = t.verify_consensus(vec![v1, v2, v3]).unwrap();
    let mut got_ids = ids(&got);
    got_ids.sort();
    // threshold 3 * 2 / 3 = 2: nodes 1, 2, 3 (9 is unknown locally)
    assert_eq!(got_ids, vec![id(1), id(2), id(3)]);
    for n in &got {
        assert_eq!(n.last_seen, n.node_id[31] as u64);
    }
}

#[test]
fn half_of_the_views_is_not_consensus() {
    let mut t = KademliaTable::new([0u8; 32]);
    for b in 1..=3u8 {
        t.add_node_at(node(id(b), 1), 2);
    }
    let all: Vec<NodeInfo> = (1..=3u8).map(|b| node(id(b), 0)).collect();
    assert!(t.verify_consensus(vec![all.clone(), all.clone(), vec![], vec![]]).is_none());
    assert!(t.verify_consensus(vec![all.clone(), all.clone(), all.clone(), vec![]]).is_some());
}

#[test]
fn a_view_listing_a_node_twice_counts_once() {
    let mut t = KademliaTable::new([0u8; 32]);
    for b in 1..=3u8 {
        t.add_node_at(node(id(b), 1), 2);
    }
    let twice: Vec<NodeInfo> = [1u8, 1, 2, 2, 3, 3].iter().map(|&b| node(id(b), 0)).collect();
    assert!(t.verify_consensus(vec![twice.clone(), vec![], vec![]]).is_none());
    assert_eq!(t.verify_consensus(vec![twice.clone(), twice, vec![]]).unwrap().len(), 3);
}

#[test]
fn consensus_with_too_few_nodes_is_none() {
    let mut t = KademliaTable::new([0u8; 32]);
    for b in 1..=5u8 {
        t.add_node_at(node(id(b), 1), 2);
    }
    let v1: Vec<NodeInfo> = [1u8, 2].iter().map(|&b| node(id(b), 0)).collect();
    let v2: Vec<NodeInfo> = [1u8, 2, 3].iter().map(|&b| node(id(b), 0)).collect();
    let v3: Vec<NodeInfo> = [4u8, 5].iter().map(|&b| node(id(b), 0)).collect();
    assert!(t.verify_consensus(vec![v1, v2, v3]).is_none());
}
