use astraea::ip::IpValue;
use astraea::net::{NetManager, NetVerdict};
use astraea::policy::PackagePolicy;

const TCP: i32 = 6;
const UDP: i32 = 17;
const CONNECT: i32 = 0;
const BIND: i32 = 1;

fn v4(a: u8, b: u8, c: u8, d: u8) -> IpValue {
    IpValue { v6: false, bits: u32::from_be_bytes([a, b, c, d]) as u128 }
}

fn addr(a: u8, b: u8, c: u8, d: u8) -> Option<(IpValue, String)> {
    Some((v4(a, b, c, d), format!("{a}.{b}.{c}.{d}")))
}

fn policy(rules: &[&str]) -> PackagePolicy {
    PackagePolicy { network: rules.iter().map(|s| s.to_string()).collect(), ..Default::default() }
}

fn packages() -> Vec<(String, PackagePolicy)> {
    vec![
        (
            "web".to_string(),
            policy(&[
                "connect:tcp:api.github.com:443",
                "allow:*.example.com:80,8080",
                "connect:*:10.0.0.0/8:*",
                "bind:udp:127.0.0.1:5353",
                "connect:tcp:db.internal:5432",
                "bogus",
                "connect:icmp:x:1",
                "listen:tcp:x:1",
            ]),
        ),
        ("any".to_string(), policy(&["connect:*:*:*"])),
        ("empty".to_string(), policy(&[])),
    ]
}

fn manager() -> NetManager {
    let pk = packages();
    let hosts = NetManager::rule_hosts(&pk);
    assert!(hosts.contains(&"127.0.0.1".to_string()));
    assert!(hosts.contains(&"api.github.com".to_string()));
    let addrs = vec![("127.0.0.1".to_string(), v4(127, 0, 0, 1))];
    NetManager::new(&pk, &addrs)
}

fn allowed(v: &NetVerdict) -> bool {
    matches!(v, NetVerdict::Allowed)
}

fn denied(v: &NetVerdict) -> bool {
    matches!(v, NetVerdict::Denied)
}

#[test]
fn rule_hosts_lists_hosts_of_well_formed_rule_texts() {
    let hosts = NetManager::rule_hosts(&packages());
    assert_eq!(
        hosts,
        vec!["api.github.com", "*.example.com", "10.0.0.0/8", "127.0.0.1", "db.internal", "x", "x", "*"]
    );
}

#[test]
fn root_without_rules_is_allowed_and_strangers_denied() {
    let m = manager();
    assert!(allowed(&m.is_allowed("root", "evil.com", None, 443, CONNECT, TCP, 0)));
    assert!(denied(&m.is_allowed("stranger", "api.github.com", None, 443, CONNECT, TCP, 0)));
    assert!(denied(&m.is_allowed("empty", "api.github.com", None, 443, CONNECT, TCP, 0)));
}

#[test]
fn exact_domain_rule() {
    let m = manager();
    assert!(allowed(&m.is_allowed("web", "api.github.com", None, 443, CONNECT, TCP, 0)));
    assert!(allowed(&m.is_allowed("web", "api.github.com", None, 443, CONNECT, 0, 0)));
    assert!(denied(&m.is_allowed("web", "api.github.com", None, 80, CONNECT, TCP, 0)));
    assert!(denied(&m.is_allowed("web", "api.github.com", None, 443, BIND, TCP, 0)));
    assert!(denied(&m.is_allowed("web", "api.github.com", None, 443, CONNECT, UDP, 0)));
    assert!(denied(&m.is_allowed("web", "github.com", None, 443, CONNECT, TCP, 0)));
}

#[test]
fn wildcard_domain_rule_in_shorthand_form() {
    let m = manager();
    assert!(allowed(&m.is_allowed("web", "www.example.com", None, 80, CONNECT, TCP, 0)));
    assert!(allowed(&m.is_allowed("web", "a.b.example.com", None, 8080, CONNECT, UDP, 0)));
    assert!(denied(&m.is_allowed("web", "example.com", None, 80, CONNECT, TCP, 0)));
    assert!(denied(&m.is_allowed("web", "www.example.com", None, 81, CONNECT, TCP, 0)));
}

#[test]
fn network_range_rule() {
    let m = manager();
    assert!(allowed(&m.is_allowed("web", "10.1.2.3", addr(10, 1, 2, 3), 22, CONNECT, UDP, 0)));
    assert!(denied(&m.is_allowed("web", "10.1.2.3", None, 22, CONNECT, UDP, 0)));
}

#[test]
fn bind_rule_on_an_address_host() {
    let m = manager();
    assert!(allowed(&m.is_allowed("web", "127.0.0.1", addr(127, 0, 0, 1), 5353, BIND, UDP, 0)));
    assert!(denied(&m.is_allowed("web", "127.0.0.1", addr(127, 0, 0, 1), 5353, BIND, TCP, 0)));
    assert!(denied(&m.is_allowed("web", "127.0.0.2", addr(127, 0, 0, 2), 5353, BIND, UDP, 0)));
}

#[test]
fn star_host_admits_every_address() {
    let m = manager();
    assert!(allowed(&m.is_allowed("any", "8.8.8.8", addr(8, 8, 8, 8), 53, CONNECT, UDP, 0)));
    let v6_loopback = Some((IpValue { v6: true, bits: 1 }, "::1".to_string()));
    assert!(allowed(&m.is_allowed("any", "::1", v6_loopback, 443, CONNECT, TCP, 0)));
    assert!(denied(&m.is_allowed("any", "example.org", None, 443, CONNECT, TCP, 0)));
}

#[test]
fn unmatched_address_is_left_to_resolution_of_exact_domains() {
    let m = manager();
    match m.is_allowed("web", "140.82.112.6", addr(140, 82, 112, 6), 443, CONNECT, TCP, 0) {
        NetVerdict::Unresolved { addr, ip_key, domains } => {
            assert_eq!(addr, v4(140, 82, 112, 6));
            assert_eq!(ip_key, "140.82.112.6");
            assert_eq!(domains, vec!["api.github.com".to_string()]);
        }
        _ => panic!("expected an unresolved verdict"),
    }
    assert!(denied(&m.is_allowed("web", "93.184.216.34", addr(93, 184, 216, 34), 80, CONNECT, TCP, 0)));
}

#[test]
fn registered_resolution_allows_until_expiry() {
    let mut m = manager();
    let now: u64 = 1_000;
    let host = "192.168.1.5";
    assert!(matches!(
        m.is_allowed("web", host, addr(192, 168, 1, 5), 5432, CONNECT, TCP, now),
        NetVerdict::Unresolved { .. }
    ));
    m.register_dns("web", "db.internal", vec![host.to_string()], 30, now);
    assert!(allowed(&m.is_allowed("web", host, addr(192, 168, 1, 5), 5432, CONNECT, TCP, now + 29_999)));
    assert!(matches!(
        m.is_allowed("web", host, addr(192, 168, 1, 5), 5432, CONNECT, TCP, now + 30_000),
        NetVerdict::Unresolved { .. }
    ));
    assert!(denied(&m.is_allowed("empty", host, addr(192, 168, 1, 5), 5432, CONNECT, TCP, now)));
    assert!(matches!(
        m.is_allowed("web", host, addr(192, 168, 1, 5), 443, CONNECT, TCP, now),
        NetVerdict::Unresolved { .. }
    ));
}

#[test]
fn registration_time_to_live_is_clamped() {
    let mut m = manager();
    m.register_dns("web", "db.internal", vec!["1.1.1.1".to_string(), "2.2.2.2".to_string()], 1, 0);
    assert!(allowed(&m.is_allowed("web", "1.1.1.1", addr(1, 1, 1, 1), 5432, CONNECT, TCP, 4_999)));
    assert!(allowed(&m.is_allowed("web", "2.2.2.2", addr(2, 2, 2, 2), 5432, CONNECT, TCP, 4_999)));
    assert!(!allowed(&m.is_allowed("web", "1.1.1.1", addr(1, 1, 1, 1), 5432, CONNECT, TCP, 5_000)));
    m.register_dns("web", "db.internal", vec!["3.3.3.3".to_string()], 100_000, 0);
    assert!(allowed(&m.is_allowed("web", "3.3.3.3", addr(3, 3, 3, 3), 5432, CONNECT, TCP, 3_599_999)));
    assert!(!allowed(&m.is_allowed("web", "3.3.3.3", addr(3, 3, 3, 3), 5432, CONNECT, TCP, 3_600_000)));
}

#[test]
fn registered_wildcard_domain_is_allowed_through_the_cache() {
    let mut m = manager();
    m.register_dns("web", "cdn.example.com", vec!["5.5.5.5".to_string()], 60, 0);
    assert!(allowed(&m.is_allowed("web", "5.5.5.5", addr(5, 5, 5, 5), 8080, CONNECT, TCP, 10)));
    assert!(denied(&m.is_allowed("web", "5.5.5.5", addr(5, 5, 5, 5), 8081, CONNECT, TCP, 10)));
}

#[test]
fn confirmed_resolution_is_remembered_for_a_minute() {
    let mut m = manager();
    let target = v4(140, 82, 112, 6);
    assert!(!m.confirm_resolution("web", "api.github.com", target, "140.82.112.6", &vec![v4(1, 2, 3, 4)], 0));
    assert!(!allowed(&m.is_allowed("web", "140.82.112.6", addr(140, 82, 112, 6), 443, CONNECT, TCP, 0)));
    assert!(m.confirm_resolution("web", "api.github.com", target, "140.82.112.6", &vec![v4(1, 2, 3, 4), target], 0));
    assert!(allowed(&m.is_allowed("web", "140.82.112.6", addr(140, 82, 112, 6), 443, CONNECT, TCP, 59_999)));
    assert!(!allowed(&m.is_allowed("web", "140.82.112.6", addr(140, 82, 112, 6), 443, CONNECT, TCP, 60_000)));
}

#[test]
fn network_texts_in_rules_are_parsed_as_ranges() {
    let pk = vec![(
        "lan".to_string(),
        policy(&["connect:tcp:192.168.1.7/24:*", "connect:tcp:1.2.3.4/33:*", "connect:tcp:172.16.0.0/12:22"]),
    )];
    let m = NetManager::new(&pk, &Vec::new());
    assert!(allowed(&m.is_allowed("lan", "192.168.1.200", addr(192, 168, 1, 200), 80, CONNECT, TCP, 0)));
    match m.is_allowed("lan", "192.168.2.1", addr(192, 168, 2, 1), 80, CONNECT, TCP, 0) {
        NetVerdict::Unresolved { domains, .. } => assert_eq!(domains, vec!["1.2.3.4/33".to_string()]),
        _ => panic!("a malformed range is kept as a domain to resolve"),
    }
    assert!(allowed(&m.is_allowed("lan", "172.31.255.255", addr(172, 31, 255, 255), 22, CONNECT, TCP, 0)));
    assert!(!allowed(&m.is_allowed("lan", "172.32.0.0", addr(172, 32, 0, 0), 22, CONNECT, TCP, 0)));
    assert!(allowed(&m.is_allowed("lan", "1.2.3.4/33", None, 80, CONNECT, TCP, 0)));
    assert!(!allowed(&m.is_allowed("lan", "1.2.3.4", addr(1, 2, 3, 4), 80, CONNECT, TCP, 0)));
}

#[test]
fn further_registrations_keep_earlier_access() {
    let mut m = manager();
    m.register_dns("web", "db.internal", vec!["7.7.7.7".to_string()], 60, 0);
    assert!(allowed(&m.is_allowed("web", "7.7.7.7", addr(7, 7, 7, 7), 5432, CONNECT, TCP, 100)));
    m.register_dns("web", "other.org", vec!["7.7.7.7".to_string()], 60, 50);
    m.register_dns("empty", "db.internal", vec!["7.7.7.7".to_string()], 5, 50);
    assert!(allowed(&m.is_allowed("web", "7.7.7.7", addr(7, 7, 7, 7), 5432, CONNECT, TCP, 100)));
}

#[test]
fn shorthand_and_connect_any_rules_agree() {
    let a = vec![("p".to_string(), policy(&["allow:api.github.com:443"]))];
    let b = vec![("p".to_string(), policy(&["connect:*:api.github.com:443"]))];
    let ma = NetManager::new(&a, &Vec::new());
    let mb = NetManager::new(&b, &Vec::new());
    for (host, port, act, proto) in [("api.github.com", 443, CONNECT, TCP), ("api.github.com", 443, CONNECT, UDP), ("api.github.com", 443, BIND, TCP), ("x.org", 443, CONNECT, TCP)] {
        assert_eq!(allowed(&ma.is_allowed("p", host, None, port, act, proto, 0)), allowed(&mb.is_allowed("p", host, None, port, act, proto, 0)));
    }
}

#[test]
fn malformed_rules_change_nothing() {
    let good = vec![("p".to_string(), policy(&["connect:tcp:a.org:443"]))];
    let with_bad = vec![("p".to_string(), policy(&["connect:tcp:a.org:443", "allow:::1:53", "deny:0.0.0.0/0", "udp:x:1", "connect:icmp:b.org:1"]))];
    let m1 = NetManager::new(&good, &Vec::new());
    let m2 = NetManager::new(&with_bad, &Vec::new());
    for host in ["a.org", "b.org", "x"] {
        for port in [1u16, 53, 443] {
            assert_eq!(allowed(&m1.is_allowed("p", host, None, port, CONNECT, TCP, 0)), allowed(&m2.is_allowed("p", host, None, port, CONNECT, TCP, 0)));
        }
    }
}

#[test]
fn added_rules_keep_earlier_access() {
    let before = vec![("p".to_string(), policy(&["connect:tcp:a.org:443"]))];
    let after = vec![("p".to_string(), policy(&["connect:tcp:a.org:443", "bind:udp:b.org:53"]))];
    let m1 = NetManager::new(&before, &Vec::new());
    let m2 = NetManager::new(&after, &Vec::new());
    assert!(allowed(&m1.is_allowed("p", "a.org", None, 443, CONNECT, TCP, 0)));
    assert!(allowed(&m2.is_allowed("p", "a.org", None, 443, CONNECT, TCP, 0)));
}

#[test]
fn other_packages_and_expired_entries_grant_nothing() {
    let mut m = manager();
    m.register_dns("any", "db.internal", vec!["9.9.9.9".to_string()], 60, 0);
    m.register_dns("web", "db.internal", vec!["9.9.9.9".to_string()], 5, 0);
    assert!(!allowed(&m.is_allowed("web", "9.9.9.9", addr(9, 9, 9, 9), 5432, CONNECT, TCP, 5_000)));
    assert!(!allowed(&m.is_allowed("empty", "9.9.9.9", addr(9, 9, 9, 9), 5432, CONNECT, TCP, 0)));
}

#[test]
fn connect_any_rule_admits_a_registered_address_on_any_protocol() {
    let pk = vec![("p".to_string(), policy(&["connect:*:db.x:5432"]))];
    let mut m = NetManager::new(&pk, &Vec::new());
    m.register_dns("p", "db.x", vec!["4.4.4.4".to_string()], 30, 0);
    for proto in [TCP, UDP, 0] {
        assert!(allowed(&m.is_allowed("p", "4.4.4.4", addr(4, 4, 4, 4), 5432, CONNECT, proto, 29_999)));
    }
}
