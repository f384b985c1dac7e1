use dcp_node::net::{IpAddress, SocketAddress};
use dcp_node::tunnel::{Tunnel, TunnelManager, TunnelState};

fn path() -> Vec<SocketAddress> {
    vec![
        SocketAddress { ip: IpAddress::v4(1, 1, 1, 1), port: 1 },
        SocketAddress { ip: IpAddress::v4(2, 2, 2, 2), port: 2 },
        SocketAddress { ip: IpAddress::v4(3, 3, 3, 3), port: 3 },
    ]
}

#[test]
fn new_tunnel_defaults() {
    let t = Tunnel::new(7, path(), true);
    assert_eq!(t.id, 7);
    assert_eq!(t.state, TunnelState::Establishing);
    assert_eq!(t.path, path());
    assert!(t.session_key.is_none());
    assert_eq!(t.rtt_ms, 100);
    assert_eq!(t.bandwidth_mbps, 10);
    assert!(t.is_inbound);
    // 100 ms and not failed
    assert!(t.is_healthy());
    let at = Tunnel::new_at(8, path(), false, 123);
    assert_eq!(at.created_at, 123);
    assert_eq!(at.last_used, 123);
}

#[test]
fn health_and_rtt_smoothing() {
    let mut t = Tunnel::new(1, path(), false);
    t.set_state(TunnelState::Established);
    assert!(t.is_healthy());
    t.update_rtt(500);
    assert_eq!(t.rtt_ms, 200);
    assert!(t.is_healthy());
    t.update_rtt(600);
    assert_eq!(t.rtt_ms, 300);
    assert!(!t.is_healthy());
    assert_eq!(t.state, TunnelState::Established);
    t.update_rtt(2000);
    assert_eq!(t.rtt_ms, 725);
    assert_eq!(t.state, TunnelState::Degraded);
    let mut f = Tunnel::new(2, path(), false);
    f.set_state(TunnelState::Failed);
    assert!(!f.is_healthy());
    f.set_state(TunnelState::Ready);
    assert!(f.is_healthy());
}

#[test]
fn ids_count_up_and_tunnels_are_listed() {
    let mut m = TunnelManager::new(2);
    assert_eq!(m.create_main_tunnel(path()), 0);
    assert_eq!(m.create_reserve_tunnel(path()), 1);
    assert_eq!(m.create_reserve_tunnel(path()), 2);
    // main tunnels are only usable once established
    assert!(m.get_main_tunnels().is_empty());
    let mut reserves = m.get_reserve_tunnels();
    reserves.sort();
    assert_eq!(reserves, vec![1, 2]);
}

#[test]
fn reserve_list_is_capped() {
    let mut m = TunnelManager::new(0);
    for _ in 0..5 {
        m.create_reserve_tunnel(path());
    }
    assert_eq!(m.get_reserve_tunnels().len(), 2);
}

#[test]
fn failover_promotes_a_reserve() {
    let mut m = TunnelManager::default();
    let main = m.create_main_tunnel(path());
    let spare = m.create_reserve_tunnel(path());
    assert_eq!(m.failover(main), Some(spare));
    assert!(m.get_reserve_tunnels().is_empty());
    assert_eq!(m.failover(main), None);
    assert_eq!(m.send_data(main, vec![1]), Err("隧道未建立".to_string()));
}

#[test]
fn failover_without_reserve_is_none() {
    let mut m = TunnelManager::default();
    let main = m.create_main_tunnel(path());
    assert_eq!(m.failover(main), None);
    assert_eq!(m.failover(99), None);
}

#[test]
fn sending_needs_an_established_tunnel() {
    let mut m = TunnelManager::default();
    assert_eq!(m.send_data(5, vec![1]), Err("隧道不存在".to_string()));
    let main = m.create_main_tunnel(path());
    assert_eq!(m.send_data(main, vec![1]), Err("隧道未建立".to_string()));
    let spare = m.create_reserve_tunnel(path());
    assert_eq!(m.failover_at(main, 10), Some(spare));
    assert_eq!(m.send_data_at(spare, vec![1], 20), Ok(0));
    assert_eq!(m.send_data(spare, vec![2]), Ok(1));
}

#[test]
fn receiving_goes_through_the_window() {
    let mut m = TunnelManager::default();
    assert_eq!(m.receive_data(3, 0, vec![1]), None);
    let t = m.create_main_tunnel(path());
    assert_eq!(m.receive_data(t, 1, b"World".to_vec()), None);
    assert_eq!(m.receive_data_at(t, 0, b"Hello".to_vec(), 5), Some(b"HelloWorld".to_vec()));
    assert_eq!(m.receive_data(t, 0, b"Hello".to_vec()), None);
}
