use astraea::ip::{host_network, ip_net_contains, IpNetValue, IpValue};

fn v4(a: u8, b: u8, c: u8, d: u8) -> IpValue {
    IpValue { v6: false, bits: u32::from_be_bytes([a, b, c, d]) as u128 }
}

fn v6(bits: u128) -> IpValue {
    IpValue { v6: true, bits }
}

fn net(addr: IpValue, prefix_len: u8) -> IpNetValue {
    IpNetValue { addr, prefix_len }
}

#[test]
fn network_contains_addresses_sharing_its_prefix() {
    let n = net(v4(10, 0, 0, 0), 8);
    assert!(ip_net_contains(n, v4(10, 0, 0, 0)));
    assert!(ip_net_contains(n, v4(10, 255, 255, 255)));
    assert!(!ip_net_contains(n, v4(11, 0, 0, 0)));
    assert!(!ip_net_contains(n, v4(9, 255, 255, 255)));
}

#[test]
fn network_with_host_bits_contains_its_whole_range() {
    let n = net(v4(192, 168, 1, 7), 24);
    assert!(ip_net_contains(n, v4(192, 168, 1, 0)));
    assert!(ip_net_contains(n, v4(192, 168, 1, 255)));
    assert!(!ip_net_contains(n, v4(192, 168, 2, 7)));
}

#[test]
fn families_never_mix() {
    let n = net(v4(0, 0, 0, 0), 0);
    assert!(ip_net_contains(n, v4(8, 8, 8, 8)));
    assert!(!ip_net_contains(n, v6(1)));
    let m = net(v6(0), 0);
    assert!(ip_net_contains(m, v6(u128::MAX)));
    assert!(!ip_net_contains(m, v4(1, 1, 1, 1)));
}

#[test]
fn ipv6_prefixes() {
    let n = net(v6(0xfe80u128 << 112), 10);
    assert!(ip_net_contains(n, v6((0xfe80u128 << 112) | 1)));
    assert!(ip_net_contains(n, v6(0xfebfu128 << 112)));
    assert!(!ip_net_contains(n, v6(0xfec0u128 << 112)));
}

#[test]
fn host_networks_hold_one_address() {
    let n = host_network(v4(127, 0, 0, 1));
    assert_eq!(n.prefix_len, 32);
    assert!(ip_net_contains(n, v4(127, 0, 0, 1)));
    assert!(!ip_net_contains(n, v4(127, 0, 0, 2)));
    let m = host_network(v6(1));
    assert_eq!(m.prefix_len, 128);
    assert!(ip_net_contains(m, v6(1)));
    assert!(!ip_net_contains(m, v6(2)));
}
