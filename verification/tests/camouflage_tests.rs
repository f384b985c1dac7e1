use dcp_node::camouflage::{CIPPool, DecoyScheduler};
use dcp_node::net::IpAddress;

fn is_v4_pool(ip: &IpAddress) -> bool {
    match ip {
        IpAddress::V4(x) => (0x7F00_0002..=0x7F00_0014).contains(x),
        IpAddress::V6(_) => false,
    }
}

fn is_v6_pool(ip: &IpAddress) -> bool {
    match ip {
        IpAddress::V6(x) => {
            let base: u128 = 0x2001_0db8_0000_0000_0000_0000_0000_0000;
            *x >= base && *x < base + 100
        }
        IpAddress::V4(_) => false,
    }
}

#[test]
fn test_cip_rotation() {
    let mut pool = CIPPool::new();
    let ip1 = pool.next_ip();
    let ip2 = pool.next_ip();
    assert_ne!(ip1, ip2);
}

#[test]
fn addresses_come_from_the_pools_and_cool_down() {
    let mut pool = CIPPool::default();
    let mut used = Vec::new();
    for _ in 0..50 {
        let ip = pool.next_ip();
        assert!(is_v4_pool(&ip) || is_v6_pool(&ip));
        assert!(pool.is_in_cooldown(&ip));
        used.push(ip);
    }
    assert!(!pool.is_in_cooldown(&IpAddress::v4(8, 8, 8, 8)));
}

#[test]
fn an_address_cooling_down_is_not_handed_out() {
    let mut pool = CIPPool::new();
    let mut history: Vec<IpAddress> = Vec::new();
    for _ in 0..400 {
        let ip = pool.next_ip();
        let recent = &history[history.len().saturating_sub(100)..];
        assert!(!recent.contains(&ip));
        history.push(ip);
    }
}

#[test]
fn every_ipv4_pick_follows_the_previous_one() {
    let mut pool = CIPPool::new();
    let mut prev: u32 = 0x7F00_0002;
    let mut seen = 0;
    for _ in 0..500 {
        if let IpAddress::V4(x) = pool.next_ip() {
            let expected = if prev == 0x7F00_0014 { 0x7F00_0002 } else { prev + 1 };
            assert_eq!(x, expected);
            prev = x;
            seen += 1;
        }
    }
    assert!(seen > 19);
}

#[test]
fn cooldown_forgets_the_oldest_beyond_a_hundred() {
    let mut pool = CIPPool::new();
    let mut first = pool.next_ip();
    while !is_v4_pool(&first) {
        first = pool.next_ip();
    }
    let mut v4_seen = Vec::new();
    for _ in 0..100 {
        let ip = pool.next_ip();
        if is_v4_pool(&ip) {
            v4_seen.push(ip);
        }
    }
    // `first` has dropped out unless a later call reused the address
    assert_eq!(pool.is_in_cooldown(&first), v4_seen.contains(&first));
}

#[test]
fn ipv4_rotation_starts_after_the_first_address() {
    let mut pool = CIPPool::new();
    let mut v4 = Vec::new();
    while v4.len() < 20 {
        let ip = pool.next_ip();
        if let IpAddress::V4(x) = ip {
            v4.push(x);
        }
    }
    assert_eq!(v4[0], 0x7F00_0003);
    assert_eq!(v4[1], 0x7F00_0004);
    assert_eq!(v4[17], 0x7F00_0014);
    assert_eq!(v4[18], 0x7F00_0002);
    assert_eq!(v4[19], 0x7F00_0003);
}

#[test]
fn shadow_addresses_are_ipv6() {
    let mut pool = CIPPool::new();
    assert!(is_v6_pool(&pool.conjure_shadow_ip()));
    let ips = pool.get_shadow_ips(7);
    assert_eq!(ips.len(), 7);
    assert!(ips.iter().all(is_v6_pool));
    assert!(pool.get_shadow_ips(0).is_empty());
    assert!(!pool.is_in_cooldown(&ips[0]));
}

#[test]
fn decoy_packets_have_random_sizes_in_range() {
    let pool = CIPPool::new();
    for _ in 0..20 {
        let p = pool.generate_decoy_packet();
        assert!(p.len() >= 64 && p.len() < 1024);
    }
}

#[test]
fn decoy_scheduler() {
    let mut d = DecoyScheduler::new(100);
    assert_eq!(d.generate_noise().len(), 1024);
    d.set_background_noise(false);
    for _ in 0..20 {
        assert!(!d.should_send_decoy());
    }
    d.set_background_noise(true);
    let mut any = false;
    for _ in 0..200 {
        any |= d.should_send_decoy();
    }
    assert!(any);
}
